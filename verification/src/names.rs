//! Names of audio nodes, files and processes, all derived from ids.

use crate::{lists, text};
use vstd::prelude::*;
use vstd::string::*;

verus! {

/// The name of a node of a channel.
pub open spec fn channel_node(id: u64, suffix: Seq<char>) -> Seq<char> {
    "OpenWave_Ch"@ + text::decimal(id as nat) + suffix
}

/// The sink that takes up what the effect chain of a channel processes.
pub fn chain_sink_name(id: u64) -> (out: String)
    ensures
        out@ == channel_node(id, "_FX"@),
{
    text::with_number("OpenWave_Ch", id, "_FX")
}

/// The source that gives out what the effect chain of a channel processed.
pub fn chain_source_name(id: u64) -> (out: String)
    ensures
        out@ == channel_node(id, "_FXOut"@),
{
    text::with_number("OpenWave_Ch", id, "_FXOut")
}

/// The sink in front of the VST rack of a channel.
pub fn vstin_sink_name(id: u64) -> (out: String)
    ensures
        out@ == channel_node(id, "_VSTIn"@),
{
    text::with_number("OpenWave_Ch", id, "_VSTIn")
}

/// The VST rack of a channel.
pub fn carla_node_name(id: u64) -> (out: String)
    ensures
        out@ == channel_node(id, "_VST"@),
{
    text::with_number("OpenWave_Ch", id, "_VST")
}

/// The node of an effect that processes both channels.
pub open spec fn stereo_label(effect: u64) -> Seq<char> {
    "fx"@ + text::decimal(effect as nat)
}

/// The node of a mono effect for the left channel.
pub open spec fn left_label(effect: u64) -> Seq<char> {
    "fx"@ + text::decimal(effect as nat) + "_l"@
}

/// The node of a mono effect for the right channel.
pub open spec fn right_label(effect: u64) -> Seq<char> {
    "fx"@ + text::decimal(effect as nat) + "_r"@
}

/// The nodes of an effect: one per stereo lane if it is mono.
pub open spec fn label_list(effect: u64, mono: bool) -> Seq<Seq<char>> {
    if mono {
        seq![left_label(effect), right_label(effect)]
    } else {
        seq![stereo_label(effect)]
    }
}

/// Node labels inside the filter graph for one effect ("fx<id>", or one per
/// stereo lane when the plugin is mono and instantiated twice).
pub fn effect_labels(effect_id: u64, mono: bool) -> (out: Vec<String>)
    ensures
        text::texts(out@) == label_list(effect_id, mono),
{
    let mut out: Vec<String> = Vec::new();
    if mono {
        out.push(text::with_number("fx", effect_id, "_l"));
        out.push(text::with_number("fx", effect_id, "_r"));
        assert(text::texts(out@) =~= seq![left_label(effect_id), right_label(effect_id)]);
    } else {
        out.push(text::numbered("fx", effect_id));
        assert(text::texts(out@) =~= seq![stereo_label(effect_id)]);
    }
    out
}

// ---- Laws ------------------------------------------------------------------------

/// The suffixes of the nodes of a channel.
pub open spec fn is_node_suffix(suffix: Seq<char>) -> bool {
    ||| suffix == "_FX"@
    ||| suffix == "_FXOut"@
    ||| suffix == "_VSTIn"@
    ||| suffix == "_VST"@
}

/// Nodes have unique names: two of them are named alike only if they are the
/// same node of the same channel, and the four nodes of a channel end in
/// different texts.
pub proof fn law_node_names_unique(a: u64, suffix_a: Seq<char>, b: u64, suffix_b: Seq<char>)
    requires
        is_node_suffix(suffix_a),
        is_node_suffix(suffix_b),
        channel_node(a, suffix_a) == channel_node(b, suffix_b),
    ensures
        a == b,
        suffix_a == suffix_b,
        "_FX"@ != "_FXOut"@,
        "_FX"@ != "_VSTIn"@,
        "_FX"@ != "_VST"@,
        "_FXOut"@ != "_VSTIn"@,
        "_FXOut"@ != "_VST"@,
        "_VSTIn"@ != "_VST"@,
{
    reveal_strlit("_FX");
    reveal_strlit("_FXOut");
    reveal_strlit("_VSTIn");
    reveal_strlit("_VST");
    text::lemma_numbered_injective("OpenWave_Ch"@, a as nat, suffix_a, b as nat, suffix_b);
    assert("_FX"@[1] != "_VST"@[1]);
    assert("_FX"@.len() != "_FXOut"@.len());
    assert("_FXOut"@[1] != "_VSTIn"@[1]);
    assert("_VSTIn"@.len() != "_VST"@.len());
}

/// Whether a text is a label of an effect.
pub open spec fn is_label(label: Seq<char>, effect: u64) -> bool {
    ||| label == stereo_label(effect)
    ||| label == left_label(effect)
    ||| label == right_label(effect)
}

/// Labels consist of what can stand in a token, so a command addresses a node
/// by the very label that the node was declared with.
pub proof fn law_labels_are_tokens(label: Seq<char>, effect: u64)
    requires
        is_label(label, effect),
    ensures
        text::token(label) == label,
{
    reveal_strlit("fx");
    reveal_strlit("_l");
    reveal_strlit("_r");
    let number = text::decimal(effect as nat);
    text::lemma_decimal_digits(effect as nat);
    let keep = |c: char| text::is_token_char(c);
    assert forall|i: int| 0 <= i < label.len() implies keep(#[trigger] label[i]) by {
        if 2 <= i < 2 + number.len() {
            assert(text::is_digit(number[i - 2]));
            assert(label[i] == number[i - 2]);
        }
    }
    lists::lemma_filter_all(label, keep);
}

/// Different effects have different labels, and the labels of one effect
/// differ from each other.
pub proof fn law_labels_unique(label: Seq<char>, a: u64, b: u64)
    requires
        is_label(label, a),
        is_label(label, b),
    ensures
        a == b,
        stereo_label(a) != left_label(a),
        stereo_label(a) != right_label(a),
        left_label(a) != right_label(a),
{
    reveal_strlit("_l");
    reveal_strlit("_r");
    let none = Seq::<char>::empty();
    let fx = "fx"@;
    assert(stereo_label(a) =~= fx + text::decimal(a as nat) + none);
    assert(stereo_label(b) =~= fx + text::decimal(b as nat) + none);
    let rest_a = if label == stereo_label(a) {
        none
    } else if label == left_label(a) {
        "_l"@
    } else {
        "_r"@
    };
    let rest_b = if label == stereo_label(b) {
        none
    } else if label == left_label(b) {
        "_l"@
    } else {
        "_r"@
    };
    text::lemma_numbered_injective(fx, a as nat, rest_a, b as nat, rest_b);
    let n = (fx + text::decimal(a as nat)).len() as int;
    assert(left_label(a)[n + 1] == 'l');
    assert(right_label(a)[n + 1] == 'r');
    assert(left_label(a).len() == n + 2);
    assert(right_label(a).len() == n + 2);
}

/// The nodes of a channel are named after its number, and the node of an effect
/// after the number of the effect: with a letter for each side where there is
/// one for each.
pub proof fn law_names_numbered(id: u64, suffix: Seq<char>, mono: bool)
    ensures
        channel_node(id, suffix) == "OpenWave_Ch"@ + text::decimal(id as nat) + suffix,
        label_list(id, mono) == if mono {
            seq![
                "fx"@ + text::decimal(id as nat) + "_l"@,
                "fx"@ + text::decimal(id as nat) + "_r"@,
            ]
        } else {
            seq!["fx"@ + text::decimal(id as nat)]
        },
{
}

} // verus!

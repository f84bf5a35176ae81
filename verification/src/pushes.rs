//! Parameter values that wait to be pushed into running chains.

use crate::config::{Parameter, ParameterModel};
use crate::{lists, text};
use vstd::prelude::*;
use vstd::string::*;

verus! {

/// A changed parameter of an effect, to be pushed into the running chain.
#[derive(Clone, Debug, PartialEq, Eq)]
pub struct Push {
    pub channel: u64,
    pub effect: u64,
    /// Whether the plugin is mono, and so has a node per stereo lane.
    pub mono: bool,
    pub parameter: Parameter,
}

/// What a [`Push`] says.
pub struct PushModel {
    pub channel: u64,
    pub effect: u64,
    pub mono: bool,
    pub parameter: ParameterModel,
}

impl View for Push {
    type V = PushModel;

    open spec fn view(&self) -> PushModel {
        PushModel {
            channel: self.channel,
            effect: self.effect,
            mono: self.mono,
            parameter: self.parameter@,
        }
    }
}

/// What some pushes say.
pub open spec fn push_models(list: Seq<Push>) -> Seq<PushModel> {
    list.map_values(|p: Push| p@)
}

impl PushModel {
    /// Whether two pushes are of the same parameter of the same effect.
    pub open spec fn same_target(self, other: PushModel) -> bool {
        &&& self.channel == other.channel
        &&& self.effect == other.effect
        &&& self.parameter.symbol == other.parameter.symbol
    }
}

/// What waits after a change: the change takes the place of an earlier one of
/// the same parameter, and nothing else is dropped.
pub open spec fn queued(pending: Seq<PushModel>, change: PushModel) -> Seq<PushModel> {
    pending.filter(|p: PushModel| !p.same_target(change)).push(change)
}

/// Puts a change to what waits.
pub fn queue(pending: &mut Vec<Push>, change: Push)
    ensures
        push_models(final(pending)@) == queued(push_models(old(pending)@), change@),
{
    let ghost all = pending@;
    let ghost model = change@;
    let test = |p: &Push| -> (yes: bool)
        ensures
            yes == !p@.same_target(change@),
    {
        p.channel != change.channel || p.effect != change.effect || !text::same_text(
            p.parameter.symbol.as_str(),
            change.parameter.symbol.as_str(),
        )
    };
    lists::retain(pending, test, Ghost(|p: PushModel| !p.same_target(change@)));
    let ghost kept = pending@;
    proof {
        assert(lists::views(all) =~= push_models(all));
        assert(lists::views(kept) =~= push_models(kept));
    }
    pending.push(change);
    assert(push_models(pending@) =~= push_models(kept).push(model));
}

/// What waits after some changes.
pub open spec fn queued_all(pending: Seq<PushModel>, changes: Seq<PushModel>) -> Seq<PushModel>
    decreases changes.len(),
{
    if changes.len() == 0 {
        pending
    } else {
        queued(queued_all(pending, changes.drop_last()), changes.last())
    }
}

// ---- Laws ---------------------------------------------------------------------------------

/// Whether a change was followed by another of the same parameter.
pub open spec fn overtaken(changes: Seq<PushModel>, i: int) -> bool {
    exists|j: int| i < j < changes.len() && changes[i].same_target(#[trigger] changes[j])
}

/// No two pushes are of the same parameter of the same effect.
pub open spec fn distinct_targets(list: Seq<PushModel>) -> bool {
    forall|i: int, j: int|
        0 <= i < j < list.len() ==> !(#[trigger] list[i]).same_target(#[trigger] list[j])
}

proof fn lemma_queued(pending: Seq<PushModel>, change: PushModel)
    ensures
        forall|p: PushModel|
            #[trigger] queued(pending, change).contains(p) <==> p == change || (pending.contains(p)
                && !p.same_target(change)),
{
    let keep = |p: PushModel| !p.same_target(change);
    let kept = pending.filter(keep);
    let out = queued(pending, change);
    broadcast use vstd::seq_lib::group_filter_ensures;

    assert forall|p: PushModel| #[trigger] out.contains(p) <==> p == change || (pending.contains(p)
        && !p.same_target(change)) by {
        if out.contains(p) {
            let k = choose|k: int| 0 <= k < out.len() && out[k] == p;
            if k < kept.len() {
                assert(kept[k] == p);
                assert(kept.contains(p));
                pending.lemma_filter_contains_rev(keep, p);
                assert(keep(kept[k]));
            }
        }
        if p == change {
            assert(out[kept.len() as int] == p);
        }
        if pending.contains(p) && keep(p) {
            let i = choose|i: int| 0 <= i < pending.len() && pending[i] == p;
            assert(kept.contains(pending[i]));
            let k = choose|k: int| 0 <= k < kept.len() && kept[k] == p;
            assert(out[k] == p);
        }
    }
}

/// Every changed parameter is pushed, with its last value: what waits after
/// some changes is each change that was not followed by another of the same
/// parameter, and what waited before for other parameters. Nothing else waits.
pub proof fn law_each_change_waits(
    pending: Seq<PushModel>,
    changes: Seq<PushModel>,
    p: PushModel,
)
    ensures
        queued_all(pending, changes).contains(p) <==> {
            ||| exists|i: int|
                0 <= i < changes.len() && #[trigger] changes[i] == p && !overtaken(changes, i)
            ||| pending.contains(p) && forall|i: int|
                0 <= i < changes.len() ==> !p.same_target(#[trigger] changes[i])
        },
    decreases changes.len(),
{
    if changes.len() > 0 {
        let rest = changes.drop_last();
        let last = changes.last();
        let n = rest.len() as int;
        law_each_change_waits(pending, rest, p);
        let before = queued_all(pending, rest);
        lemma_queued(before, last);
        let out = queued_all(pending, changes);
        assert(out.contains(p) <==> p == last || (before.contains(p) && !p.same_target(last)));
        assert(changes[n] == last);
        assert(!overtaken(changes, n));
        assert forall|i: int| 0 <= i < n implies overtaken(changes, i) == (overtaken(rest, i)
            || #[trigger] changes[i].same_target(last)) by {
            assert(rest[i] == changes[i]);
            if overtaken(rest, i) {
                let j = choose|j: int|
                    i < j < rest.len() && rest[i].same_target(#[trigger] rest[j]);
                assert(changes[i].same_target(changes[j]));
            }
            if overtaken(changes, i) {
                let j = choose|j: int|
                    i < j < changes.len() && changes[i].same_target(#[trigger] changes[j]);
                if j < n {
                    assert(rest[i].same_target(rest[j]));
                }
            }
            if changes[i].same_target(last) {
                assert(changes[i].same_target(changes[n]));
            }
        }
        let now = exists|i: int|
            0 <= i < changes.len() && #[trigger] changes[i] == p && !overtaken(changes, i);
        let then = exists|i: int|
            0 <= i < rest.len() && #[trigger] rest[i] == p && !overtaken(rest, i);
        if now {
            let i = choose|i: int|
                0 <= i < changes.len() && #[trigger] changes[i] == p && !overtaken(changes, i);
            if i < n {
                assert(rest[i] == p && !overtaken(rest, i));
                assert(then && !p.same_target(last));
            } else {
                assert(p == last);
            }
        }
        if then && !p.same_target(last) {
            let i = choose|i: int|
                0 <= i < rest.len() && #[trigger] rest[i] == p && !overtaken(rest, i);
            assert(changes[i] == p && !overtaken(changes, i));
            assert(now);
        }
        if forall|i: int| 0 <= i < rest.len() ==> !p.same_target(#[trigger] rest[i]) {
            if !p.same_target(last) {
                assert forall|i: int| 0 <= i < changes.len() implies !p.same_target(
                    #[trigger] changes[i],
                ) by {
                    if i < n {
                        assert(rest[i] == changes[i]);
                    }
                }
            }
        }
        if forall|i: int| 0 <= i < changes.len() ==> !p.same_target(#[trigger] changes[i]) {
            assert forall|i: int| 0 <= i < rest.len() implies !p.same_target(
                #[trigger] rest[i],
            ) by {
                assert(rest[i] == changes[i]);
            }
            assert(!p.same_target(changes[n]));
        }
    }
}

/// No parameter waits twice.
pub proof fn law_nothing_waits_twice(pending: Seq<PushModel>, changes: Seq<PushModel>)
    requires
        distinct_targets(pending),
    ensures
        distinct_targets(queued_all(pending, changes)),
    decreases changes.len(),
{
    if changes.len() > 0 {
        law_nothing_waits_twice(pending, changes.drop_last());
        lemma_queued_distinct(queued_all(pending, changes.drop_last()), changes.last());
    }
}

proof fn lemma_queued_distinct(pending: Seq<PushModel>, change: PushModel)
    requires
        distinct_targets(pending),
    ensures
        distinct_targets(queued(pending, change)),
{
    broadcast use vstd::seq_lib::group_filter_ensures;

    let keep = |p: PushModel| !p.same_target(change);
    lemma_filter_distinct(pending, keep);
    let kept = pending.filter(keep);
    let out = queued(pending, change);
    assert forall|i: int, j: int| 0 <= i < j < out.len() implies !(#[trigger] out[i]).same_target(
        #[trigger] out[j],
    ) by {
        assert(out[i] == kept[i]);
        assert(keep(kept[i]));
        if j < kept.len() {
            assert(out[j] == kept[j]);
        }
    }
}

proof fn lemma_filter_distinct(pending: Seq<PushModel>, keep: spec_fn(PushModel) -> bool)
    requires
        distinct_targets(pending),
    ensures
        distinct_targets(pending.filter(keep)),
    decreases pending.len(),
{
    reveal(Seq::filter);
    if pending.len() > 0 {
        let rest = pending.drop_last();
        assert forall|i: int, j: int| 0 <= i < j < rest.len() implies !(
        #[trigger] rest[i]).same_target(#[trigger] rest[j]) by {
            assert(rest[i] == pending[i] && rest[j] == pending[j]);
        }
        lemma_filter_distinct(rest, keep);
        let part = rest.filter(keep);
        let out = pending.filter(keep);
        if keep(pending.last()) {
            assert forall|i: int, j: int| 0 <= i < j < out.len() implies !(
            #[trigger] out[i]).same_target(#[trigger] out[j]) by {
                assert(out[i] == part[i]);
                if j < part.len() {
                    assert(out[j] == part[j]);
                } else {
                    assert(part.contains(part[i]));
                    rest.lemma_filter_contains_rev(keep, part[i]);
                    let k = choose|k: int| 0 <= k < rest.len() && rest[k] == part[i];
                    assert(pending[k] == part[i]);
                    assert(!pending[k].same_target(pending[pending.len() - 1]));
                }
            }
        }
    }
}

/// Two pushes are of the same parameter exactly if channel, effect and symbol
/// are the same, whatever the values.
pub proof fn law_same_parameter(p: PushModel, q: PushModel)
    ensures
        p.same_target(q) <==> p.channel == q.channel && p.effect == q.effect && p.parameter.symbol
            == q.parameter.symbol,
{
}

/// A change of a parameter waits behind what waited, and does not displace a
/// change of another channel, of another effect or of another parameter; of an
/// earlier change of the same parameter nothing is left.
pub proof fn law_change_displaces(pending: Seq<PushModel>, change: PushModel, p: PushModel)
    requires
        pending.contains(p),
    ensures
        queued(pending, change).last() == change,
        p.channel != change.channel || p.effect != change.effect || p.parameter.symbol
            != change.parameter.symbol ==> queued(pending, change).contains(p),
        p.channel == change.channel && p.effect == change.effect && p.parameter.symbol
            == change.parameter.symbol && p != change ==> !queued(pending, change).contains(p),
{
    lemma_queued(pending, change);
}

} // verus!

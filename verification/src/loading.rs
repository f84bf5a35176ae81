//! Making a saved configuration usable.

use crate::config::{ChannelConfig, ChannelModel, Config, ConfigModel, MasterModel, MAX_CHANNELS};
use crate::{config, lists, text};
use vstd::prelude::*;
use vstd::string::*;

verus! {

/// Ids as numbers.
pub open spec fn nats(ids: Seq<u64>) -> Seq<nat> {
    ids.map_values(|id: u64| id as nat)
}

/// The greatest of some ids, 0 if there are none.
pub open spec fn greatest(ids: Seq<nat>) -> nat
    decreases ids.len(),
{
    if ids.len() == 0 {
        0
    } else if ids.last() > greatest(ids.drop_last()) {
        ids.last()
    } else {
        greatest(ids.drop_last())
    }
}

/// An id above some others, and not below the next to be given out.
pub open spec fn fresh_id(next: nat, taken: Seq<nat>) -> nat {
    if next > greatest(taken) + 1 {
        next
    } else {
        greatest(taken) + 1
    }
}

/// Whether an id is the first, counting from `start`, that is not among some
/// others.
pub open spec fn first_free(start: nat, held: Seq<nat>, id: nat) -> bool {
    &&& start <= id
    &&& !held.contains(id)
    &&& forall|x: nat| start <= x < id ==> #[trigger] held.contains(x)
}

/// The first id, counting from `start`, that is not among some others.
pub open spec fn free_id(start: nat, held: Seq<nat>) -> nat {
    choose|id: nat| first_free(start, held, id)
}

/// The first `n` ids after loading. Each stays unless it is 0 or an earlier
/// one: then a fresh one takes its place, above those before it and not below
/// `next`, passing over the ids of later channels.
pub open spec fn settled_start(ids: Seq<nat>, next: nat, n: nat) -> Seq<nat>
    decreases n,
{
    if n == 0 {
        Seq::empty()
    } else {
        let done = settled_start(ids, next, (n - 1) as nat);
        let id = ids[n - 1];
        done.push(
            if id == 0 || done.contains(id) {
                free_id(fresh_id(next, done), ids.skip(n as int))
            } else {
                id
            },
        )
    }
}

/// The ids after loading, in order: each channel keeps its id unless it has
/// none or an earlier channel has it already. A fresh id is not below the next
/// to be given out, above those of the channels before, and not the id of a
/// later channel.
pub open spec fn settled_ids(ids: Seq<nat>, next: nat) -> Seq<nat> {
    settled_start(ids, next, ids.len())
}

/// The ids of some channels.
pub open spec fn ids_of(channels: Seq<ChannelModel>) -> Seq<nat> {
    channels.map_values(|c: ChannelModel| c.id as nat)
}

/// What migration keeps of the fixed-8-channel format: anything assigned and
/// the two defaults.
pub open spec fn worth_keeping(c: ChannelModel) -> bool {
    c.assignment is Some || config::built_in(c.name)
}

/// The channels that loading keeps. A channel without an id marks the
/// fixed-8-channel format, whose untouched filler channels are dropped.
pub open spec fn kept_channels(channels: Seq<ChannelModel>) -> Seq<ChannelModel> {
    if exists|i: int| 0 <= i < channels.len() && (#[trigger] channels[i]).id == 0 {
        channels.filter(|c: ChannelModel| worth_keeping(c))
    } else {
        channels
    }
}

/// A channel after loading, with its id: it has a name, built-in channels are
/// permanent, and the monitor and stream faders are within bounds.
pub open spec fn settled_channel(c: ChannelModel, id: nat) -> ChannelModel {
    let name = if text::blank(c.name) { config::numbered_name(id) } else { c.name };
    ChannelModel {
        id: id as u64,
        name,
        permanent: c.permanent || config::built_in(name),
        monitor_volume: c.monitor_volume.unit(),
        stream_volume: c.stream_volume.unit(),
        ..c
    }
}

/// The ids that loading gives to the channels it keeps.
pub open spec fn loaded_ids(cfg: ConfigModel) -> Seq<nat> {
    settled_ids(ids_of(kept_channels(cfg.channels)), cfg.next_channel_id as nat)
}

/// The channels that loading keeps, settled.
pub open spec fn settled_channels(cfg: ConfigModel) -> Seq<ChannelModel> {
    let kept = kept_channels(cfg.channels);
    Seq::new(kept.len(), |i: int| settled_channel(kept[i], loaded_ids(cfg)[i]))
}

/// Whether there is an id left behind those that loading gives out.
pub open spec fn ids_left(cfg: ConfigModel) -> bool {
    greatest(loaded_ids(cfg)) < u64::MAX
}

/// A configuration after loading.
pub open spec fn loaded(cfg: ConfigModel) -> ConfigModel {
    let channels = settled_channels(cfg);
    ConfigModel {
        next_channel_id: fresh_id(cfg.next_channel_id as nat, loaded_ids(cfg)) as u64,
        channels: if channels.len() > MAX_CHANNELS {
            channels.take(MAX_CHANNELS as int)
        } else {
            channels
        },
        master: MasterModel {
            monitor_volume: cfg.master.monitor_volume.unit(),
            stream_volume: cfg.master.stream_volume.unit(),
            ..cfg.master
        },
        ..cfg
    }
}

/// The first id, counting from `start`, that no channel from position `from` on
/// has; `None` if it would not leave room for another.
fn find_free_id(ids: &Vec<u64>, from: usize, start: u64) -> (out: Option<u64>)
    requires
        from <= ids@.len(),
    ensures
        ({
            let id = free_id(start as nat, nats(ids@).skip(from as int));
            match out {
                Some(found) => found == id && found < u64::MAX,
                None => id >= u64::MAX,
            }
        }),
{
    let ghost held = nats(ids@).skip(from as int);
    let mut id: u64 = start;
    proof {
        lemma_free_id(start as nat, held);
    }
    while id < u64::MAX
        invariant
            from <= ids@.len(),
            held == nats(ids@).skip(from as int),
            first_free(start as nat, held, free_id(start as nat, held)),
            start <= id,
            forall|x: nat| start <= x < id ==> #[trigger] held.contains(x),
        decreases u64::MAX - id,
    {
        if !holds_id(ids, from, id) {
            assert(first_free(start as nat, held, id as nat));
            return Some(id);
        }
        id += 1;
    }
    None
}

/// The ids after loading and the greatest of them; `None` if an id would not
/// leave room for another.
fn settle_ids(ids: &Vec<u64>, next: u64) -> (out: Option<(Vec<u64>, u64)>)
    ensures
        ({
            let ids = settled_ids(nats(ids@), next as nat);
            match out {
                Some((list, top)) => {
                    &&& nats(list@) == ids
                    &&& top == greatest(ids)
                    &&& top < u64::MAX
                },
                None => greatest(ids) >= u64::MAX,
            }
        }),
{
    let ghost given = nats(ids@);
    let mut list: Vec<u64> = Vec::new();
    let mut top: u64 = 0;
    let mut i: usize = 0;
    assert(nats(list@) =~= settled_start(given, next as nat, 0));
    while i < ids.len()
        invariant
            i <= ids@.len(),
            given == nats(ids@),
            list@.len() == i,
            nats(list@) == settled_start(given, next as nat, i as nat),
            top == greatest(settled_start(given, next as nat, i as nat)),
            top < u64::MAX,
        decreases ids@.len() - i,
    {
        let ghost done = settled_start(given, next as nat, i as nat);
        let ghost now = settled_start(given, next as nat, (i + 1) as nat);
        let id: u64 = ids[i];
        proof {
            assert(given[i as int] == id as nat);
            assert(done.skip(0) =~= done);
            assert(now.drop_last() =~= done);
            lemma_settled_start(given, next as nat, (i + 1) as nat, given.len());
        }
        let settled: u64 = if id == 0 || holds_id(&list, 0, id) {
            let fresh: u64 = if next > top + 1 { next } else { top + 1 };
            match find_free_id(ids, i + 1, fresh) {
                Some(free) => free,
                None => {
                    return None;
                },
            }
        } else {
            id
        };
        if settled == u64::MAX {
            return None;
        }
        let ghost before = list@;
        list.push(settled);
        assert(nats(list@) =~= nats(before).push(settled as nat));
        if settled > top {
            top = settled;
        }
        i += 1;
    }
    Some((list, top))
}

/// Whether an id is in a list, at position `from` or later.
fn holds_id(list: &Vec<u64>, from: usize, id: u64) -> (yes: bool)
    requires
        from <= list@.len(),
    ensures
        yes == nats(list@).skip(from as int).contains(id as nat),
{
    let ghost ids = nats(list@).skip(from as int);
    let mut i: usize = from;
    while i < list.len()
        invariant
            from <= i <= list@.len(),
            ids == nats(list@).skip(from as int),
            forall|j: int| 0 <= j < i - from ==> ids[j] != id as nat,
        decreases list@.len() - i,
    {
        if list[i] == id {
            assert(ids[i - from] == id as nat);
            return true;
        }
        i += 1;
    }
    false
}

/// There is a first free id.
proof fn lemma_free_id(start: nat, held: Seq<nat>)
    ensures
        first_free(start, held, free_id(start, held)),
{
    let end = fresh_id(start, held);
    assert forall|i: int| 0 <= i < held.len() implies held[i] != end by {
        lemma_greatest(held, i);
    }
    lemma_free_id_between(start, held, start, end);
}

proof fn lemma_free_id_between(start: nat, held: Seq<nat>, low: nat, end: nat)
    requires
        start <= low <= end,
        !held.contains(end),
        forall|x: nat| start <= x < low ==> #[trigger] held.contains(x),
    ensures
        exists|id: nat| first_free(start, held, id),
    decreases end - low,
{
    if held.contains(low) {
        lemma_free_id_between(start, held, low + 1, end);
    } else {
        assert(first_free(start, held, low));
    }
}

/// The ids settled for the first channels stay as further ones are settled,
/// and the greatest id does not shrink.
proof fn lemma_settled_start(ids: Seq<nat>, next: nat, n: nat, m: nat)
    requires
        n <= m,
    ensures
        settled_start(ids, next, m).len() == m,
        settled_start(ids, next, m).take(n as int) == settled_start(ids, next, n),
        greatest(settled_start(ids, next, n)) <= greatest(settled_start(ids, next, m)),
    decreases m,
{
    let all = settled_start(ids, next, m);
    if n == m {
        if m > 0 {
            lemma_settled_start(ids, next, 0, (m - 1) as nat);
        }
        assert(all.take(n as int) =~= all);
    } else {
        let done = settled_start(ids, next, (m - 1) as nat);
        lemma_settled_start(ids, next, n, (m - 1) as nat);
        assert(all.drop_last() =~= done);
        assert(all.take(n as int) =~= done.take(n as int));
    }
}

/// How each id is settled: from those before it and those after it.
proof fn lemma_settled_at(ids: Seq<nat>, next: nat, i: int)
    requires
        0 <= i < ids.len(),
    ensures
        ({
            let all = settled_ids(ids, next);
            let done = all.take(i);
            &&& all.len() == ids.len()
            &&& if ids[i] == 0 || done.contains(ids[i]) {
                first_free(fresh_id(next, done), ids.skip(i + 1), all[i])
            } else {
                all[i] == ids[i]
            }
        }),
{
    let all = settled_ids(ids, next);
    let done = settled_start(ids, next, i as nat);
    lemma_settled_start(ids, next, i as nat, ids.len());
    lemma_settled_start(ids, next, (i + 1) as nat, ids.len());
    lemma_settled_start(ids, next, i as nat, (i + 1) as nat);
    lemma_free_id(fresh_id(next, done), ids.skip(i + 1));
    assert(all.take(i + 1)[i] == all[i]);
}

fn keeps(c: &ChannelConfig) -> (yes: bool)
    ensures
        yes == worth_keeping(c@),
{
    c.assignment.is_some() || config::is_built_in(c.name.as_str())
}

/// Whether some channel has no id.
fn lacks_id(channels: &Vec<ChannelConfig>) -> (yes: bool)
    ensures
        yes == exists|i: int|
            0 <= i < channels@.len() && (#[trigger] config::models(channels@)[i]).id == 0,
{
    let ghost all = config::models(channels@);
    let mut i: usize = 0;
    while i < channels.len()
        invariant
            i <= channels@.len(),
            all == config::models(channels@),
            forall|j: int| 0 <= j < i ==> (#[trigger] all[j]).id != 0,
        decreases channels@.len() - i,
    {
        assert(all[i as int] == channels@[i as int]@);
        if channels[i].id == 0 {
            return true;
        }
        i += 1;
    }
    false
}

/// The ids of the channels that loading keeps.
fn kept_ids(channels: &Vec<ChannelConfig>) -> (out: Vec<u64>)
    ensures
        nats(out@) == ids_of(
            kept_channels(config::models(channels@)),
        ),
{
    let ghost all = config::models(channels@);
    let ghost keep = |c: ChannelModel| worth_keeping(c);
    let ghost id_of = |c: ChannelModel| c.id as nat;
    let migrate = lacks_id(channels);
    let mut out: Vec<u64> = Vec::new();
    let mut i: usize = 0;
    proof {
        lists::lemma_pick_none(all, keep, id_of);
        assert(nats(out@) =~= Seq::<nat>::empty());
        assert(all.take(0).map_values(id_of) =~= Seq::<nat>::empty());
    }
    while i < channels.len()
        invariant
            i <= channels@.len(),
            all == config::models(channels@),
            keep == (|c: ChannelModel| worth_keeping(c)),
            id_of == (|c: ChannelModel| c.id as nat),
            nats(out@) == if migrate {
                all.take(i as int).filter(keep).map_values(id_of)
            } else {
                all.take(i as int).map_values(id_of)
            },
        decreases channels@.len() - i,
    {
        let ghost before = out@;
        proof {
            assert(all[i as int] == channels@[i as int]@);
            lists::lemma_pick_step(all, i as int, keep, id_of);
            assert(all.take(i + 1).map_values(id_of) =~= all.take(i as int).map_values(
                id_of,
            ).push(id_of(all[i as int])));
        }
        if !migrate || keeps(&channels[i]) {
            out.push(channels[i].id);
            assert(nats(out@) =~= nats(before).push(channels@[i as int].id as nat));
        }
        i += 1;
    }
    assert(all.take(i as int) =~= all);
    out
}

/// Settles one channel under its id.
fn settle_channel(c: &mut ChannelConfig, id: u64)
    ensures
        final(c)@ == settled_channel(old(c)@, id as nat),
{
    c.id = id;
    if text::is_blank(c.name.as_str()) {
        c.name = config::make_numbered_name(id);
    }
    if config::is_built_in(c.name.as_str()) {
        c.permanent = true;
    }
    c.monitor_volume = c.monitor_volume.clamp_unit();
    c.stream_volume = c.stream_volume.clamp_unit();
}

impl Config {
    /// Whether loading this configuration leaves an id for another channel.
    pub fn ids_fit(&self) -> (yes: bool)
        ensures
            yes == ids_left(self@),
    {
        settle_ids(&kept_ids(&self.channels), self.next_channel_id).is_some()
    }

    /// Makes a saved configuration usable, or starts with a fresh one:
    /// migrates the fixed-8-channel format, gives every channel an id and a
    /// name of its own, and brings faders and channel count within bounds.
    pub fn load(saved: Option<Config>) -> (out: Config)
        requires
            saved matches Some(cfg) ==> ids_left(cfg@),
        ensures
            out@ == match saved {
                Some(cfg) => loaded(cfg@),
                None => loaded(config::default_config()),
            },
    {
        let mut cfg = match saved {
            Some(cfg) => cfg,
            None => {
                proof {
                    lemma_default_loads();
                }
                Config::default()
            },
        };
        let ghost start = cfg@;
        let ghost kept = kept_channels(start.channels);
        let ghost want = settled_channels(start);
        let (ids, top) = settle_ids(&kept_ids(&cfg.channels), cfg.next_channel_id).unwrap();
        if lacks_id(&cfg.channels) {
            let ghost all = cfg.channels@;
            lists::retain(&mut cfg.channels, keeps, Ghost(|c: ChannelModel| worth_keeping(c)));
            assert(lists::views(all) =~= config::models(all));
            assert(lists::views(cfg.channels@) =~= config::models(cfg.channels@));
        }
        proof {
            lemma_settled_start(ids_of(kept), start.next_channel_id as nat, 0, kept.len());
            assert(config::models(cfg.channels@) == kept);
            assert(cfg.channels@.len() == kept.len());
            assert(nats(ids@).len() == ids@.len());
        }
        let mut i: usize = 0;
        while i < cfg.channels.len()
            invariant
                i <= cfg.channels@.len(),
                kept == kept_channels(start.channels),
                want == settled_channels(start),
                cfg.channels@.len() == kept.len(),
                ids@.len() == kept.len(),
                nats(ids@) == loaded_ids(start),
                cfg.next_channel_id == start.next_channel_id,
                cfg.master@ == start.master,
                cfg.vod_mix_enabled == start.vod_mix_enabled,
                cfg.setup_done == start.setup_done,
                cfg.wave_xlr == start.wave_xlr,
                forall|j: int|
                    0 <= j < i ==> (#[trigger] cfg.channels@[j])@ == want[j],
                forall|j: int|
                    i <= j < kept.len() ==> (#[trigger] cfg.channels@[j])@ == kept[j],
            decreases cfg.channels@.len() - i,
        {
            assert(loaded_ids(start)[i as int] == ids@[i as int] as nat);
            settle_channel(&mut cfg.channels[i], ids[i]);
            i += 1;
        }
        assert(config::models(cfg.channels@) =~= want);
        cfg.channels.truncate(MAX_CHANNELS);
        if cfg.next_channel_id < top + 1 {
            cfg.next_channel_id = top + 1;
        }
        cfg.master.monitor_volume = cfg.master.monitor_volume.clamp_unit();
        cfg.master.stream_volume = cfg.master.stream_volume.clamp_unit();
        assert(cfg@.channels =~= loaded(start).channels);
        cfg
    }
}

/// The fresh configuration leaves ids for more channels.
proof fn lemma_default_loads()
    ensures
        ids_left(config::default_config()),
{
    let cfg = config::default_config();
    assert(kept_channels(cfg.channels) == cfg.channels);
    let ids = ids_of(cfg.channels);
    assert(ids =~= seq![1nat, 2nat]);
    lemma_settled_already(ids, 3);
    lemma_greatest_below(ids, 3);
}

// ---- Laws of loading ------------------------------------------------------------

/// What holds of the channels at all times: there are no more than fit, no two
/// have the same id, and every id is positive and below the next to be given out.
pub open spec fn sound(cfg: ConfigModel) -> bool {
    &&& cfg.channels.len() <= MAX_CHANNELS
    &&& cfg.next_channel_id > 0
    &&& forall|i: int|
        0 <= i < cfg.channels.len() ==> 0 < (#[trigger] cfg.channels[i]).id < cfg.next_channel_id
    &&& forall|i: int, j: int|
        0 <= i < j < cfg.channels.len() ==> (#[trigger] cfg.channels[i]).id != (
        #[trigger] cfg.channels[j]).id
}

/// A channel that loading has nothing to change on.
pub open spec fn tidy_channel(c: ChannelModel) -> bool {
    &&& !text::blank(c.name)
    &&& config::built_in(c.name) ==> c.permanent
    &&& c.monitor_volume.unit() == c.monitor_volume
    &&& c.stream_volume.unit() == c.stream_volume
}

/// A configuration that loading has nothing to change on.
pub open spec fn tidy(cfg: ConfigModel) -> bool {
    &&& sound(cfg)
    &&& forall|i: int| 0 <= i < cfg.channels.len() ==> tidy_channel(#[trigger] cfg.channels[i])
    &&& cfg.master.monitor_volume.unit() == cfg.master.monitor_volume
    &&& cfg.master.stream_volume.unit() == cfg.master.stream_volume
}

proof fn lemma_greatest(ids: Seq<nat>, i: int)
    requires
        0 <= i < ids.len(),
    ensures
        ids[i] <= greatest(ids),
    decreases ids.len(),
{
    if i < ids.len() - 1 {
        lemma_greatest(ids.drop_last(), i);
    }
}

proof fn lemma_greatest_below(ids: Seq<nat>, bound: nat)
    requires
        forall|i: int| 0 <= i < ids.len() ==> (#[trigger] ids[i]) < bound,
        bound > 0,
    ensures
        greatest(ids) < bound,
    decreases ids.len(),
{
    if ids.len() > 0 {
        let rest = ids.drop_last();
        assert forall|i: int| 0 <= i < rest.len() implies (#[trigger] rest[i]) < bound by {
            assert(rest[i] == ids[i]);
        }
        lemma_greatest_below(rest, bound);
    }
}

/// Settled ids are positive and all different.
proof fn lemma_settled_distinct(ids: Seq<nat>, next: nat)
    ensures
        settled_ids(ids, next).len() == ids.len(),
        forall|i: int| 0 <= i < ids.len() ==> 0 < #[trigger] settled_ids(ids, next)[i],
        forall|i: int, j: int|
            0 <= i < j < ids.len() ==> #[trigger] settled_ids(ids, next)[i]
                != #[trigger] settled_ids(ids, next)[j],
{
    let all = settled_ids(ids, next);
    lemma_settled_start(ids, next, 0, ids.len());
    assert forall|i: int| 0 <= i < ids.len() implies 0 < #[trigger] all[i] by {
        lemma_settled_at(ids, next, i);
    }
    assert forall|i: int, j: int| 0 <= i < j < ids.len() implies #[trigger] all[i]
        != #[trigger] all[j] by {
        let done = all.take(j);
        lemma_settled_at(ids, next, j);
        assert(done[i] == all[i]);
        assert(done.contains(done[i]));
        lemma_greatest(done, i);
    }
}

/// Ids that are positive and all different are settled already.
proof fn lemma_settled_already(ids: Seq<nat>, next: nat)
    requires
        forall|i: int| 0 <= i < ids.len() ==> 0 < #[trigger] ids[i],
        forall|i: int, j: int| 0 <= i < j < ids.len() ==> #[trigger] ids[i] != #[trigger] ids[j],
    ensures
        settled_ids(ids, next) == ids,
{
    law_ids_stable(ids, next);
    assert(settled_ids(ids, next) =~= ids);
}

/// After loading, every channel has an id of its own that will not be given
/// out again, there are no more channels than fit, every channel has a name,
/// the built-in channels are permanent, and the monitor and stream faders are
/// within bounds.
pub proof fn law_load_tidies(cfg: ConfigModel)
    requires
        ids_left(cfg),
    ensures
        tidy(loaded(cfg)),
{
    let kept = kept_channels(cfg.channels);
    let ids = loaded_ids(cfg);
    let next = fresh_id(cfg.next_channel_id as nat, ids);
    let out = loaded(cfg);
    lemma_settled_distinct(ids_of(kept), cfg.next_channel_id as nat);
    assert forall|i: int| 0 <= i < out.channels.len() implies tidy_channel(
        #[trigger] out.channels[i],
    ) && out.channels[i].id as nat == ids[i] && 0 < ids[i] < next by {
        lemma_greatest(ids, i);
        assert(out.channels[i] == settled_channel(kept[i], ids[i]));
        lemma_numbered_name(ids[i]);
    }
}

/// A name made of a number is not blank.
proof fn lemma_numbered_name(id: nat)
    ensures
        !text::blank(config::numbered_name(id)),
{
    reveal_strlit("Channel ");
    assert(config::numbered_name(id)[0] == 'C');
    assert(!text::is_white_space('C'));
}

/// Loading what was saved in good order gives back exactly that.
pub proof fn law_load_keeps_tidy(cfg: ConfigModel)
    requires
        tidy(cfg),
    ensures
        ids_left(cfg),
        loaded(cfg) == cfg,
{
    let channels = cfg.channels;
    assert forall|i: int| 0 <= i < channels.len() implies (#[trigger] channels[i]).id != 0 by {}
    assert(kept_channels(channels) == channels);
    let ids = ids_of(channels);
    assert forall|i: int| 0 <= i < ids.len() implies 0 < #[trigger] ids[i]
        && ids[i] < cfg.next_channel_id as nat by {
        assert(ids[i] == channels[i].id as nat);
    }
    assert forall|i: int, j: int| 0 <= i < j < ids.len() implies #[trigger] ids[i]
        != #[trigger] ids[j] by {
        assert(ids[i] == channels[i].id as nat);
        assert(ids[j] == channels[j].id as nat);
    }
    lemma_settled_already(ids, cfg.next_channel_id as nat);
    if ids.len() > 0 {
        assert(channels[0].id < cfg.next_channel_id);
        lemma_greatest_below(ids, cfg.next_channel_id as nat);
    }
    let settled = settled_channels(cfg);
    assert forall|i: int| 0 <= i < channels.len() implies #[trigger] settled[i] == channels[i] by {
        assert(tidy_channel(channels[i]));
        assert(loaded_ids(cfg)[i] == channels[i].id as nat);
    }
    assert(settled =~= channels);
    assert(loaded(cfg) =~= cfg);
}

/// An id that a channel before some position was saved with is among those
/// settled there.
proof fn lemma_settled_holds(ids: Seq<nat>, next: nat, i: int, j: int)
    requires
        0 <= j < i <= ids.len(),
        ids[j] != 0,
    ensures
        settled_ids(ids, next).take(i).contains(ids[j]),
{
    let all = settled_ids(ids, next);
    let done = all.take(j);
    lemma_settled_at(ids, next, j);
    if done.contains(ids[j]) {
        let k = choose|k: int| 0 <= k < done.len() && done[k] == ids[j];
        assert(all.take(i)[k] == ids[j]);
    } else {
        assert(all.take(i)[j] == ids[j]);
    }
}

/// Ids are stable: an id that is one, and that no earlier channel has, stays
/// what it is. An id that is replaced gives way to one that no channel was
/// saved with: the first that is not below the next to be given out, above the
/// ids of all channels before, and not the id of a later channel.
pub proof fn law_ids_stable(ids: Seq<nat>, next: nat)
    ensures
        settled_ids(ids, next).len() == ids.len(),
        forall|i: int|
            0 <= i < ids.len() && ids[i] != 0 && (forall|j: int| 0 <= j < i ==> ids[j] != ids[i])
                ==> #[trigger] settled_ids(ids, next)[i] == ids[i],
        forall|i: int|
            0 <= i < ids.len() && (ids[i] == 0 || exists|j: int|
                0 <= j < i && ids[j] == ids[i]) ==> first_free(
                fresh_id(next, settled_ids(ids, next).take(i)),
                ids.skip(i + 1),
                #[trigger] settled_ids(ids, next)[i],
            ),
        forall|i: int, j: int|
            0 <= i < ids.len() && 0 <= j < ids.len() && settled_ids(ids, next)[i] != ids[i]
                ==> #[trigger] settled_ids(ids, next)[i] != #[trigger] ids[j],
{
    let all = settled_ids(ids, next);
    lemma_settled_start(ids, next, 0, ids.len());
    assert forall|i: int| 0 <= i < ids.len() && ids[i] != 0 && (forall|j: int|
        0 <= j < i ==> ids[j] != ids[i]) implies #[trigger] all[i] == ids[i] by {
        let done = all.take(i);
        lemma_settled_at(ids, next, i);
        assert forall|k: int| 0 <= k < done.len() implies done[k] != ids[i] by {
            lemma_settled_at(ids, next, k);
            assert(ids.skip(k + 1)[i - k - 1] == ids[i]);
        }
    }
    assert forall|i: int|
        0 <= i < ids.len() && (ids[i] == 0 || exists|j: int|
            0 <= j < i && ids[j] == ids[i]) implies first_free(
        fresh_id(next, all.take(i)),
        ids.skip(i + 1),
        #[trigger] all[i],
    ) by {
        lemma_settled_at(ids, next, i);
        if ids[i] != 0 {
            let j = choose|j: int| 0 <= j < i && ids[j] == ids[i];
            lemma_settled_holds(ids, next, i, j);
        }
    }
    assert forall|i: int, j: int|
        0 <= i < ids.len() && 0 <= j < ids.len() && all[i] != ids[i] implies #[trigger] all[i]
        != #[trigger] ids[j] by {
        let done = all.take(i);
        lemma_settled_at(ids, next, i);
        if j > i {
            assert(ids.skip(i + 1)[j - i - 1] == ids[j]);
        } else if j < i && ids[j] != 0 {
            lemma_settled_holds(ids, next, i, j);
            let k = choose|k: int| 0 <= k < done.len() && done[k] == ids[j];
            lemma_greatest(done, k);
        }
    }
}

/// Loading keeps the id of every channel that has one to itself, or is the
/// first of those that share it.
pub proof fn law_load_keeps_ids(cfg: ConfigModel, i: int)
    requires
        ({
            let kept = kept_channels(cfg.channels);
            &&& 0 <= i < kept.len()
            &&& kept[i].id != 0
            &&& forall|j: int| 0 <= j < i ==> (#[trigger] kept[j]).id != kept[i].id
        }),
    ensures
        settled_channels(cfg)[i].id == kept_channels(cfg.channels)[i].id,
        i < MAX_CHANNELS ==> loaded(cfg).channels[i].id == kept_channels(cfg.channels)[i].id,
{
    let kept = kept_channels(cfg.channels);
    let ids = ids_of(kept);
    law_ids_stable(ids, cfg.next_channel_id as nat);
    assert forall|j: int| 0 <= j < i implies ids[j] != ids[i] by {
        assert(ids[j] == kept[j].id as nat);
    }
    assert(ids[i] == kept[i].id as nat);
    assert(settled_ids(ids, cfg.next_channel_id as nat)[i] == ids[i]);
}

/// Loading twice is loading once.
pub proof fn law_load_idempotent(cfg: ConfigModel)
    requires
        ids_left(cfg),
    ensures
        ids_left(loaded(cfg)),
        loaded(loaded(cfg)) == loaded(cfg),
{
    law_load_tidies(cfg);
    law_load_keeps_tidy(loaded(cfg));
}

/// Which channels loading keeps: where every channel has an id, all of them;
/// where one has none, those that have an input or are one of the two built-in
/// ones. They stay in their order.
pub proof fn law_channels_kept(channels: Seq<ChannelModel>, c: ChannelModel)
    ensures
        (forall|i: int| 0 <= i < channels.len() ==> (#[trigger] channels[i]).id != 0)
            ==> kept_channels(channels) == channels,
        (exists|i: int| 0 <= i < channels.len() && (#[trigger] channels[i]).id == 0) ==> {
            let kept = channels.filter(
                |c: ChannelModel|
                    c.assignment is Some || c.name == "Microphone"@ || c.name == "System"@,
            );
            &&& kept_channels(channels) == kept
            &&& kept_channels(channels).contains(c) <==> channels.contains(c) && (c.assignment
                is Some || c.name == "Microphone"@ || c.name == "System"@)
        },
{
    broadcast use vstd::seq_lib::group_filter_ensures;

    let keep = |c: ChannelModel|
        c.assignment is Some || c.name == "Microphone"@ || c.name == "System"@;
    assert(keep =~= (|c: ChannelModel| worth_keeping(c)));
    let kept = channels.filter(keep);
    if kept.contains(c) {
        channels.lemma_filter_contains_rev(keep, c);
        let i = choose|i: int| 0 <= i < kept.len() && kept[i] == c;
        assert(keep(kept[i]));
    }
    if channels.contains(c) && keep(c) {
        let i = choose|i: int| 0 <= i < channels.len() && channels[i] == c;
        assert(kept.contains(channels[i]));
    }
}

/// Of each channel that is kept, loading changes nothing but its id, its name
/// where that is blank, whether it is permanent, which the built-in channels
/// become, and the monitor and stream volumes, which are brought within bounds.
/// No more than eight channels are kept, the first ones. Of the rest of the
/// configuration only the next id and the monitor and stream volumes change.
pub proof fn law_load_keeps_settings(cfg: ConfigModel, i: int)
    requires
        ids_left(cfg),
        0 <= i < kept_channels(cfg.channels).len(),
        i < 8,
    ensures
        ({
            let out = loaded(cfg);
            let kept = kept_channels(cfg.channels);
            let c = kept[i];
            let d = out.channels[i];
            &&& out.channels.len() == if kept.len() > 8 {
                8
            } else {
                kept.len()
            }
            &&& d == (ChannelModel {
                id: d.id,
                name: d.name,
                permanent: d.permanent,
                monitor_volume: d.monitor_volume,
                stream_volume: d.stream_volume,
                ..c
            })
            &&& !text::blank(c.name) ==> d.name == c.name
            &&& text::blank(c.name) ==> d.name == "Channel "@ + text::decimal(d.id as nat)
            &&& d.permanent == (c.permanent || d.name == "Microphone"@ || d.name == "System"@)
            &&& d.monitor_volume == c.monitor_volume.unit()
            &&& d.stream_volume == c.stream_volume.unit()
            &&& out.master == (MasterModel {
                monitor_volume: cfg.master.monitor_volume.unit(),
                stream_volume: cfg.master.stream_volume.unit(),
                ..cfg.master
            })
            &&& out == (ConfigModel {
                next_channel_id: out.next_channel_id,
                channels: out.channels,
                master: out.master,
                ..cfg
            })
            &&& out.next_channel_id >= cfg.next_channel_id
            &&& out.next_channel_id > d.id
        }),
{
    let ids = loaded_ids(cfg);
    lemma_settled_start(
        ids_of(kept_channels(cfg.channels)),
        cfg.next_channel_id as nat,
        0,
        kept_channels(cfg.channels).len(),
    );
    lemma_greatest(ids, i);
}

/// The id that is given out next after loading is as low as it can be: the one
/// that was saved, or the one above the greatest that a channel has.
pub proof fn law_next_id_lowest(cfg: ConfigModel)
    requires
        ids_left(cfg),
    ensures
        ({
            let next = loaded(cfg).next_channel_id as nat;
            let ids = loaded_ids(cfg);
            &&& next == cfg.next_channel_id || (next == 1 && ids.len() == 0) || exists|i: int|
                0 <= i < ids.len() && #[trigger] ids[i] + 1 == next
            &&& forall|i: int| 0 <= i < ids.len() ==> #[trigger] ids[i] < next
        }),
{
    let ids = loaded_ids(cfg);
    lemma_greatest_is_one(ids);
    assert forall|i: int| 0 <= i < ids.len() implies #[trigger] ids[i] <= greatest(ids) by {
        lemma_greatest(ids, i);
    }
}

proof fn lemma_greatest_is_one(ids: Seq<nat>)
    ensures
        ids.len() == 0 ==> greatest(ids) == 0,
        ids.len() > 0 ==> ids.contains(greatest(ids)),
    decreases ids.len(),
{
    if ids.len() > 0 {
        let rest = ids.drop_last();
        lemma_greatest_is_one(rest);
        if ids.last() > greatest(rest) || rest.len() == 0 {
            assert(ids[ids.len() - 1] == greatest(ids));
        } else {
            let i = choose|i: int| 0 <= i < rest.len() && rest[i] == greatest(rest);
            assert(ids[i] == greatest(ids));
        }
    }
}

} // verus!

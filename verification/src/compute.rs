//! Compute-trust aggregation: a user's devices rolled up from what the chain and the atlas say of them.
//!
//! Histories and the atlas are fetched outside. A device whose history cannot be had, or that is not in
//! the atlas, contributes zeros, so that one device that is offline never fails the whole profile.
use crate::karma;
use crate::karma::{ComputeTrust, DeviceFacts};
use crate::order;
use crate::order::{Rank, RankKey};
use crate::sums;
use crate::text;
use vstd::prelude::*;

verus! {

/// A device is seen recently if its last atlas signal is within this many seconds.
pub const RECENT_SECS: u64 = 180;

/// A node's proven, paid work.
#[derive(Debug, Clone, Copy, PartialEq, Eq, Structural)]
pub struct History {
    pub jobs_hosted: u64,
    pub heartbeats_hosted: u64,
    pub expiries: u64,
    /// Credits earned hosting, in base units.
    pub earned_base: i128,
}

/// A node's advertised capacity and recency.
pub struct AtlasEntry {
    pub node_id: String,
    pub cpu_cores: u32,
    pub mem_mb: u32,
    pub last_seen_secs: u64,
}

/// Where `device` first stands among the ids from `i` on; the length where it does not.
pub open spec fn find_device(ids: Seq<Seq<char>>, device: Seq<char>, i: int) -> int
    decreases ids.len() - i,
{
    if i >= ids.len() {
        ids.len() as int
    } else if ids[i] == device {
        i
    } else {
        find_device(ids, device, i + 1)
    }
}

/// The node ids of an atlas.
pub open spec fn atlas_ids(atlas: Seq<AtlasEntry>) -> Seq<Seq<char>> {
    atlas.map_values(|e: AtlasEntry| e.node_id@)
}

/// The entry's last signal is recent at `now`.
pub open spec fn recent(e: AtlasEntry, now: u64) -> bool {
    now - e.last_seen_secs <= RECENT_SECS
}

/// What is known of a device: zeros for a missing history, zeros for a missing atlas entry, and no
/// negative earnings.
pub open spec fn known_of(
    history: Option<History>,
    atlas: Seq<AtlasEntry>,
    device: Seq<char>,
    now: u64,
) -> DeviceFacts {
    let k = find_device(atlas_ids(atlas), device, 0);
    DeviceFacts {
        jobs_hosted: if history is Some {
            history->0.jobs_hosted
        } else {
            0
        },
        heartbeats_hosted: if history is Some {
            history->0.heartbeats_hosted
        } else {
            0
        },
        expiries: if history is Some {
            history->0.expiries
        } else {
            0
        },
        earned_base: if history is Some && history->0.earned_base > 0 {
            history->0.earned_base as u128
        } else {
            0
        },
        cpu_cores: if k < atlas.len() {
            atlas[k].cpu_cores
        } else {
            0
        },
        mem_mb: if k < atlas.len() {
            atlas[k].mem_mb as u64
        } else {
            0
        },
        seen_recently: k < atlas.len() && recent(atlas[k], now),
    }
}

/// What is known of a device.
pub fn device_facts(
    history: Option<History>,
    atlas: &Vec<AtlasEntry>,
    device: &str,
    now: u64,
) -> (facts: DeviceFacts)
    ensures
        facts == known_of(history, atlas@, device@, now),
{
    let ghost ids = atlas_ids(atlas@);
    let n: usize = atlas.len();
    let mut k: usize = 0;
    let mut found: bool = false;
    while k < n && !found
        invariant
            k <= n,
            n == atlas@.len(),
            ids == atlas_ids(atlas@),
            found ==> k < n && ids[k as int] == device@,
            find_device(ids, device@, 0) == find_device(ids, device@, k as int),
        decreases n - k + (if found {
            0int
        } else {
            1
        }),
    {
        if text::same_text(&atlas[k].node_id, device) {
            found = true;
        } else {
            k = k + 1;
        }
    }
    let (jobs_hosted, heartbeats_hosted, expiries, earned_base): (u64, u64, u64, u128) = match history {
        Some(h) => {
            let earned: u128 = if h.earned_base > 0 {
                h.earned_base as u128
            } else {
                0
            };
            (h.jobs_hosted, h.heartbeats_hosted, h.expiries, earned)
        },
        None => (0, 0, 0, 0),
    };
    if found {
        let e = &atlas[k];
        DeviceFacts {
            jobs_hosted,
            heartbeats_hosted,
            expiries,
            earned_base,
            cpu_cores: e.cpu_cores,
            mem_mb: e.mem_mb as u64,
            seen_recently: now.saturating_sub(e.last_seen_secs) <= RECENT_SECS,
        }
    } else {
        DeviceFacts {
            jobs_hosted,
            heartbeats_hosted,
            expiries,
            earned_base,
            cpu_cores: 0,
            mem_mb: 0,
            seen_recently: false,
        }
    }
}

/// All devices rolled into one aggregate, in order.
pub open spec fn rolled_up(facts: Seq<DeviceFacts>) -> ComputeTrust
    decreases facts.len(),
{
    if facts.len() == 0 {
        karma::no_compute()
    } else {
        rolled_up(facts.drop_last()).with_device(facts.last())
    }
}

/// No total overflows on the way.
pub open spec fn totals_fit(facts: Seq<DeviceFacts>) -> bool {
    forall|k: int| 0 <= k < facts.len() ==> rolled_up(#[trigger] facts.take(k)).has_room(facts[k])
}

/// The aggregate of the first `i` devices, or nothing where a total overflows.
fn roll_up(facts: &Vec<DeviceFacts>) -> (trust: Option<ComputeTrust>)
    ensures
        match trust {
            Some(t) => totals_fit(facts@) && t == rolled_up(facts@),
            None => !totals_fit(facts@),
        },
{
    let mut trust = ComputeTrust::default();
    let mut i: usize = 0;
    assert(facts@.take(0) =~= Seq::empty());
    while i < facts.len()
        invariant
            i <= facts@.len(),
            trust == rolled_up(facts@.take(i as int)),
            trust.seen <= trust.devices,
            trust.delivered() <= u64::MAX,
            forall|k: int| 0 <= k < i ==> rolled_up(#[trigger] facts@.take(k)).has_room(facts@[k]),
        decreases facts.len() - i,
    {
        let d = facts[i];
        let work: u128 = trust.jobs_hosted as u128 + d.jobs_hosted as u128 + trust.heartbeats_hosted as u128
            + d.heartbeats_hosted as u128;
        let room: bool = trust.devices < u32::MAX && work <= u64::MAX as u128 && trust.expiries as u128
            + d.expiries as u128 <= u64::MAX as u128 && trust.cpu_cores as u64 + d.cpu_cores as u64 <= u32::MAX as u64
            && trust.mem_mb as u128 + d.mem_mb as u128 <= u64::MAX as u128;
        assert(room == trust.has_room(d));
        if !room {
            assert(rolled_up(facts@.take(i as int)).has_room(facts@[i as int]) == false);
            return None;
        }
        trust.add_device(
            d.jobs_hosted,
            d.heartbeats_hosted,
            d.expiries,
            d.earned_base,
            d.cpu_cores,
            d.mem_mb,
            d.seen_recently,
        );
        proof {
            assert(facts@.take(i + 1).drop_last() =~= facts@.take(i as int));
            assert(facts@.take(i + 1).last() == d);
        }
        i = i + 1;
    }
    assert(facts@.take(i as int) =~= facts@);
    Some(trust)
}

/// Do all totals of the devices fit?
pub fn aggregate_fits(facts: &Vec<DeviceFacts>) -> (fits: bool)
    ensures
        fits == totals_fit(facts@),
{
    roll_up(facts).is_some()
}

/// Aggregate the compute reputation of all devices.
pub fn aggregate(facts: &Vec<DeviceFacts>) -> (trust: ComputeTrust)
    requires
        totals_fit(facts@),
    ensures
        trust == rolled_up(facts@),
        adds_up(facts@, trust),
{
    proof {
        law_totals_fit_where_the_sums_do(facts@);
        law_aggregate_adds_up_all_devices(facts@);
    }
    match roll_up(facts) {
        Some(t) => t,
        None => ComputeTrust::default(),
    }
}

/// The ranks by which seed candidates are ordered: most cores first.
pub open spec fn core_ranks(atlas: Seq<AtlasEntry>) -> Seq<Rank> {
    Seq::new(atlas.len(), |i: int| (Rank { key: atlas[i].cpu_cores as i64, at: 0, id: Seq::empty() }))
}

/// The node ids of the largest advertisers, at most `max` of them, largest first.
pub open spec fn largest(atlas: Seq<AtlasEntry>, max: int) -> Seq<Seq<char>> {
    let ids = order::arranged(atlas_ids(atlas), order::ranking(core_ranks(atlas), atlas.len() as int));
    if max < ids.len() {
        ids.take(max)
    } else {
        ids
    }
}

/// Seed candidates: the largest advertisers, at most `max` of them, to be confirmed by delivered work.
pub fn seed_candidates(atlas: &Vec<AtlasEntry>, max: usize) -> (ids: Vec<String>)
    ensures
        ids.deep_view() == largest(atlas@, max as int),
{
    let mut ranks: Vec<RankKey> = Vec::new();
    let mut i: usize = 0;
    while i < atlas.len()
        invariant
            i <= atlas@.len(),
            ranks@.len() == i,
            forall|j: int| 0 <= j < i ==> (#[trigger] ranks@[j])@ == (Rank {
                    key: atlas@[j].cpu_cores as i64,
                    at: 0,
                    id: Seq::empty(),
                }),
        decreases atlas.len() - i,
    {
        let none: String = String::new();
        assert(none@ =~= Seq::<char>::empty());
        ranks.push(RankKey { key: atlas[i].cpu_cores as i64, at: 0, id: none });
        i = i + 1;
    }
    assert(order::ranks_in(ranks@) =~= core_ranks(atlas@));
    let sorted = order::ranked(&ranks);
    let ghost indices = sorted@.map_values(|i: usize| i as int);
    let ghost all = order::arranged(atlas_ids(atlas@), indices);
    let mut ids: Vec<String> = Vec::new();
    let mut i: usize = 0;
    assert(ids.deep_view() =~= all.take(0));
    while i < sorted.len() && i < max
        invariant
            i <= sorted@.len(),
            i <= max,
            sorted@.len() == atlas@.len(),
            indices == sorted@.map_values(|i: usize| i as int),
            order::lists_all(indices, atlas@.len() as int),
            all == order::arranged(atlas_ids(atlas@), indices),
            ids.deep_view() == all.take(i as int),
        decreases sorted.len() - i,
    {
        let at: usize = sorted[i];
        assert(at as int == indices[i as int]);
        let ghost before = ids.deep_view();
        ids.push(atlas[at].node_id.clone());
        proof {
            assert(ids.deep_view() =~= before.push(all[i as int]));
            assert(all.take(i + 1) =~= all.take(i as int).push(all[i as int]));
        }
        i = i + 1;
    }
    proof {
        if i == sorted.len() {
            assert(all.take(i as int) =~= all);
        }
        assert(ids.deep_view() =~= largest(atlas@, max as int));
    }
    ids
}

/// The work a node has delivered, where it has delivered any.
pub open spec fn delivery(history: History) -> Option<u64> {
    if history.jobs_hosted + history.heartbeats_hosted > 0 {
        Some((history.jobs_hosted + history.heartbeats_hosted) as u64)
    } else {
        None
    }
}

/// The work a node has delivered, where it has delivered any: only such nodes are seeded.
pub fn delivered_by(history: &History) -> (work: Option<u64>)
    requires
        history.jobs_hosted + history.heartbeats_hosted <= u64::MAX,
    ensures
        work == delivery(*history),
{
    let delivered: u64 = history.jobs_hosted + history.heartbeats_hosted;
    if delivered > 0 {
        Some(delivered)
    } else {
        None
    }
}

proof fn lemma_rolled_up_counts(facts: Seq<DeviceFacts>)
    requires
        totals_fit(facts),
    ensures
        rolled_up(facts).devices == facts.len(),
        rolled_up(facts).seen <= rolled_up(facts).devices,
    decreases facts.len(),
{
    if facts.len() > 0 {
        let shorter = facts.drop_last();
        assert forall|k: int| 0 <= k < shorter.len() implies rolled_up(#[trigger] shorter.take(k)).has_room(
            shorter[k],
        ) by {
            assert(shorter.take(k) =~= facts.take(k));
            assert(shorter[k] == facts[k]);
        }
        lemma_rolled_up_counts(shorter);
        assert(facts.take(facts.len() - 1) =~= shorter);
        assert(rolled_up(facts.take(facts.len() - 1)).has_room(facts[facts.len() - 1]));
    }
}

/// The aggregate counts every device once, and no more devices are seen recently than there are.
pub proof fn law_aggregate_counts_devices(facts: Seq<DeviceFacts>)
    requires
        totals_fit(facts),
    ensures
        rolled_up(facts).devices == facts.len(),
        rolled_up(facts).seen <= facts.len(),
{
    lemma_rolled_up_counts(facts);
}

// ----- what the totals are -----

/// The jobs of a device.
pub open spec fn jobs() -> spec_fn(DeviceFacts) -> int {
    |d: DeviceFacts| d.jobs_hosted as int
}

/// The heartbeats of a device.
pub open spec fn heartbeats() -> spec_fn(DeviceFacts) -> int {
    |d: DeviceFacts| d.heartbeats_hosted as int
}

/// The no-shows of a device.
pub open spec fn no_shows() -> spec_fn(DeviceFacts) -> int {
    |d: DeviceFacts| d.expiries as int
}

/// What a device has earned.
pub open spec fn earnings() -> spec_fn(DeviceFacts) -> int {
    |d: DeviceFacts| d.earned_base as int
}

/// The cores of a device.
pub open spec fn cores() -> spec_fn(DeviceFacts) -> int {
    |d: DeviceFacts| d.cpu_cores as int
}

/// The memory of a device.
pub open spec fn memory() -> spec_fn(DeviceFacts) -> int {
    |d: DeviceFacts| d.mem_mb as int
}

/// One for a device that was seen recently.
pub open spec fn recently() -> spec_fn(DeviceFacts) -> int {
    |d: DeviceFacts|
        if d.seen_recently {
            1
        } else {
            0
        }
}

/// The sums over all devices fit the counters they go to.
pub open spec fn sums_fit(facts: Seq<DeviceFacts>) -> bool {
    &&& facts.len() <= u32::MAX
    &&& sums::added_up(facts, jobs()) + sums::added_up(facts, heartbeats()) <= u64::MAX
    &&& sums::added_up(facts, no_shows()) <= u64::MAX
    &&& sums::added_up(facts, cores()) <= u32::MAX
    &&& sums::added_up(facts, memory()) <= u64::MAX
}

/// The aggregate is that of all devices of the list.
pub open spec fn adds_up(facts: Seq<DeviceFacts>, t: ComputeTrust) -> bool {
    let earned = sums::added_up(facts, earnings());
    let work = sums::added_up(facts, jobs()) + sums::added_up(facts, heartbeats());
    &&& t.devices == facts.len()
    &&& t.jobs_hosted == sums::added_up(facts, jobs())
    &&& t.heartbeats_hosted == sums::added_up(facts, heartbeats())
    &&& t.expiries == sums::added_up(facts, no_shows())
    &&& t.cpu_cores == sums::added_up(facts, cores())
    &&& t.mem_mb == sums::added_up(facts, memory())
    &&& t.seen == sums::added_up(facts, recently())
    &&& earned <= u128::MAX ==> t.earned_base == earned
    &&& earned > u128::MAX ==> t.earned_base == u128::MAX
    &&& work == 0 ==> t.avg_price_base == 0
    &&& work > 0 ==> t.avg_price_base == t.earned_base as int / work
}

proof fn lemma_sums_of_none()
    ensures
        sums::added_up(Seq::<DeviceFacts>::empty(), jobs()) == 0,
        sums::added_up(Seq::<DeviceFacts>::empty(), heartbeats()) == 0,
        sums::added_up(Seq::<DeviceFacts>::empty(), no_shows()) == 0,
        sums::added_up(Seq::<DeviceFacts>::empty(), cores()) == 0,
        sums::added_up(Seq::<DeviceFacts>::empty(), memory()) == 0,
        sums::added_up(Seq::<DeviceFacts>::empty(), earnings()) == 0,
        sums::added_up(Seq::<DeviceFacts>::empty(), recently()) == 0,
{
}

/// The sums of the first devices fit where those of all do.
proof fn lemma_sums_grow(facts: Seq<DeviceFacts>, k: int)
    requires
        0 <= k <= facts.len(),
    ensures
        0 <= sums::added_up(facts.take(k), jobs()) <= sums::added_up(facts, jobs()),
        0 <= sums::added_up(facts.take(k), heartbeats()) <= sums::added_up(facts, heartbeats()),
        0 <= sums::added_up(facts.take(k), no_shows()) <= sums::added_up(facts, no_shows()),
        0 <= sums::added_up(facts.take(k), cores()) <= sums::added_up(facts, cores()),
        0 <= sums::added_up(facts.take(k), memory()) <= sums::added_up(facts, memory()),
        0 <= sums::added_up(facts.take(k), earnings()) <= sums::added_up(facts, earnings()),
        0 <= sums::added_up(facts.take(k), recently()),
{
    sums::lemma_added_up_grows(facts, jobs(), k);
    sums::lemma_added_up_grows(facts, heartbeats(), k);
    sums::lemma_added_up_grows(facts, no_shows(), k);
    sums::lemma_added_up_grows(facts, cores(), k);
    sums::lemma_added_up_grows(facts, memory(), k);
    sums::lemma_added_up_grows(facts, earnings(), k);
    sums::lemma_added_up_grows(facts, recently(), k);
}

proof fn lemma_adds_up(facts: Seq<DeviceFacts>)
    requires
        sums_fit(facts),
    ensures
        adds_up(facts, rolled_up(facts)),
        rolled_up(facts).seen <= rolled_up(facts).devices,
    decreases facts.len(),
{
    if facts.len() == 0 {
        assert(facts =~= Seq::empty());
        lemma_sums_of_none();
    } else {
        let shorter = facts.drop_last();
        assert(facts.take(facts.len() - 1) =~= shorter);
        lemma_sums_grow(facts, facts.len() - 1);
        lemma_adds_up(shorter);
    }
}

/// An aggregate can be formed exactly where the sums over all devices fit the counters they go to.
pub proof fn law_totals_fit_where_the_sums_do(facts: Seq<DeviceFacts>)
    ensures
        totals_fit(facts) <==> sums_fit(facts),
    decreases facts.len(),
{
    if sums_fit(facts) {
        assert forall|k: int| 0 <= k < facts.len() implies rolled_up(#[trigger] facts.take(k)).has_room(facts[k]) by {
            lemma_sums_grow(facts, k);
            lemma_sums_grow(facts, k + 1);
            assert(sums_fit(facts.take(k)));
            lemma_adds_up(facts.take(k));
            assert(facts.take(k + 1).drop_last() =~= facts.take(k));
            assert(facts.take(k + 1).last() == facts[k]);
            assert(sums_fit(facts.take(k + 1)));
        }
    }
    if totals_fit(facts) {
        if facts.len() == 0 {
            assert(facts =~= Seq::empty());
            lemma_sums_of_none();
        } else {
            let shorter = facts.drop_last();
            let last = facts.len() - 1;
            assert(facts.take(last) =~= shorter);
            assert forall|k: int| 0 <= k < shorter.len() implies rolled_up(#[trigger] shorter.take(k)).has_room(
                shorter[k],
            ) by {
                assert(shorter.take(k) =~= facts.take(k));
                assert(shorter[k] == facts[k]);
            }
            law_totals_fit_where_the_sums_do(shorter);
            lemma_adds_up(shorter);
            assert(rolled_up(facts.take(last)).has_room(facts[last]));
        }
    }
}

/// The aggregate of a user's devices adds them all up: jobs, heartbeats, no-shows, cores, memory and recent
/// sightings are the sums over the list, earnings are too as far as they can be counted, and the average
/// price is what was earned per job and heartbeat delivered, nothing where none was.
pub proof fn law_aggregate_adds_up_all_devices(facts: Seq<DeviceFacts>)
    requires
        sums_fit(facts),
    ensures
        totals_fit(facts),
        adds_up(facts, rolled_up(facts)),
{
    law_totals_fit_where_the_sums_do(facts);
    lemma_adds_up(facts);
}

/// The aggregate does not depend on the order of the devices.
pub proof fn law_aggregate_ignores_order(a: Seq<DeviceFacts>, b: Seq<DeviceFacts>)
    requires
        a.to_multiset() == b.to_multiset(),
        totals_fit(a),
    ensures
        totals_fit(b),
        rolled_up(a) == rolled_up(b),
{
    sums::lemma_added_up_permuted(a, b, jobs());
    sums::lemma_added_up_permuted(a, b, heartbeats());
    sums::lemma_added_up_permuted(a, b, no_shows());
    sums::lemma_added_up_permuted(a, b, earnings());
    sums::lemma_added_up_permuted(a, b, cores());
    sums::lemma_added_up_permuted(a, b, memory());
    sums::lemma_added_up_permuted(a, b, recently());
    law_totals_fit_where_the_sums_do(a);
    law_totals_fit_where_the_sums_do(b);
    lemma_adds_up(a);
    lemma_adds_up(b);
}

/// One more device adds its own work, no-shows, cores and memory to what was there, and loses nothing of it.
pub proof fn law_one_more_device_adds_its_own(t: ComputeTrust, d: DeviceFacts)
    requires
        t.has_room(d),
    ensures
        ({
            let u = t.with_device(d);
            let work = t.jobs_hosted + t.heartbeats_hosted + d.jobs_hosted + d.heartbeats_hosted;
            &&& u.devices - t.devices == 1
            &&& u.jobs_hosted - t.jobs_hosted == d.jobs_hosted
            &&& u.heartbeats_hosted - t.heartbeats_hosted == d.heartbeats_hosted
            &&& u.expiries - t.expiries == d.expiries
            &&& u.cpu_cores - t.cpu_cores == d.cpu_cores
            &&& u.mem_mb - t.mem_mb == d.mem_mb
            &&& d.seen_recently ==> u.seen == t.seen + 1
            &&& !d.seen_recently ==> u.seen == t.seen
            &&& t.earned_base + d.earned_base <= u128::MAX ==> u.earned_base - t.earned_base == d.earned_base
            &&& work > 0 ==> u.avg_price_base == u.earned_base as int / work
            &&& work == 0 ==> u.avg_price_base == 0
        }),
{
}

// ----- what is known of a device -----

/// A device brings in what the chain says of it: all of its history where it has one, but no debts, and
/// nothing where it has none.
pub proof fn law_history_counts_as_it_is(
    history: Option<History>,
    atlas: Seq<AtlasEntry>,
    device: Seq<char>,
    now: u64,
)
    ensures
        ({
            let d = known_of(history, atlas, device, now);
            &&& history matches Some(h) ==> d.jobs_hosted == h.jobs_hosted && d.heartbeats_hosted
                == h.heartbeats_hosted && d.expiries == h.expiries && (h.earned_base >= 0 ==> d.earned_base
                == h.earned_base) && (h.earned_base < 0 ==> d.earned_base == 0)
            &&& history is None ==> d.jobs_hosted == 0 && d.heartbeats_hosted == 0 && d.expiries == 0 && d.earned_base
                == 0
        }),
{
}

proof fn lemma_find_device(ids: Seq<Seq<char>>, device: Seq<char>, i: int)
    requires
        0 <= i <= ids.len(),
    ensures
        i <= find_device(ids, device, i) <= ids.len(),
        find_device(ids, device, i) < ids.len() ==> ids[find_device(ids, device, i)] == device,
        forall|j: int| i <= j < find_device(ids, device, i) ==> ids[j] != device,
    decreases ids.len() - i,
{
    if i < ids.len() && ids[i] != device {
        lemma_find_device(ids, device, i + 1);
    }
}

/// A device brings in what the atlas says of it: the capacity of its first entry, and it was seen recently
/// exactly where its last signal is at most three minutes old; nothing where the atlas does not list it.
pub proof fn law_atlas_counts_as_it_is(
    history: Option<History>,
    atlas: Seq<AtlasEntry>,
    device: Seq<char>,
    now: u64,
    k: int,
)
    ensures
        ({
            let d = known_of(history, atlas, device, now);
            let first = 0 <= k < atlas.len() && atlas[k].node_id@ == device && forall|j: int|
                0 <= j < k ==> (#[trigger] atlas[j]).node_id@ != device;
            &&& first ==> d.cpu_cores == atlas[k].cpu_cores && d.mem_mb == atlas[k].mem_mb && (d.seen_recently <==> now
                <= atlas[k].last_seen_secs + 180)
            &&& (forall|j: int| 0 <= j < atlas.len() ==> (#[trigger] atlas[j]).node_id@ != device) ==> d.cpu_cores == 0
                && d.mem_mb == 0 && !d.seen_recently
        }),
{
    let ids = atlas_ids(atlas);
    let f = find_device(ids, device, 0);
    lemma_find_device(ids, device, 0);
    assert(forall|j: int| 0 <= j < atlas.len() ==> ids[j] == (#[trigger] atlas[j]).node_id@);
    if 0 <= k < atlas.len() && atlas[k].node_id@ == device && forall|j: int|
        0 <= j < k ==> (#[trigger] atlas[j]).node_id@ != device {
        assert(ids[k] == device);
        if f < k {
            assert(atlas[f].node_id@ == device);
        }
    }
    if f < atlas.len() {
        assert(atlas[f].node_id@ == device);
    }
}

// ----- seed candidates -----

/// The seed candidates are the largest advertisers: entries of the atlas, none twice, more cores first, as
/// many as wanted and there are, and none that is left out has more cores than one that is not.
pub proof fn law_seeds_are_the_largest(atlas: Seq<AtlasEntry>, max: nat)
    ensures
        exists|at: Seq<int>|
            #![trigger at.no_duplicates()]
            {
                &&& at.no_duplicates()
                &&& at.len() == largest(atlas, max as int).len()
                &&& at.len() == max || (at.len() < max && at.len() == atlas.len())
                &&& forall|k: int|
                    0 <= k < at.len() ==> 0 <= #[trigger] at[k] < atlas.len() && largest(atlas, max as int)[k]
                        == atlas[at[k]].node_id@
                &&& forall|k: int, l: int|
                    0 <= k < l < at.len() ==> atlas[#[trigger] at[k]].cpu_cores >= atlas[#[trigger] at[l]].cpu_cores
                &&& forall|x: int, k: int|
                    0 <= x < atlas.len() && !at.contains(x) && 0 <= k < at.len() ==> (#[trigger] atlas[x]).cpu_cores
                        <= atlas[#[trigger] at[k]].cpu_cores
            },
{
    let ranks = core_ranks(atlas);
    let all = order::ranking(ranks, atlas.len() as int);
    order::law_ranking(ranks, atlas.len() as int);
    let at = if max < all.len() {
        all.take(max as int)
    } else {
        all
    };
    let out = largest(atlas, max as int);
    assert(forall|k: int| 0 <= k < at.len() ==> #[trigger] at[k] == all[k]);
    assert(at.no_duplicates());
    assert forall|k: int, l: int| 0 <= k < l < all.len() implies atlas[#[trigger] all[k]].cpu_cores
        >= atlas[#[trigger] all[l]].cpu_cores by {
        assert(!order::outranks(ranks[all[l]], ranks[all[k]]));
    }
    assert forall|x: int, k: int| 0 <= x < atlas.len() && !at.contains(x) && 0 <= k < at.len() implies (
    #[trigger] atlas[x]).cpu_cores <= atlas[#[trigger] at[k]].cpu_cores by {
        assert(all.contains(x));
        let l = choose|l: int| 0 <= l < all.len() && all[l] == x;
        if l < at.len() {
            assert(at[l] == x);
        }
        assert(atlas[all[k]].cpu_cores >= atlas[all[l]].cpu_cores);
    }
}

/// A candidate is seeded with the jobs and heartbeats that it has delivered, and only where it has delivered
/// some.
pub proof fn law_seeds_have_delivered(history: History)
    requires
        history.jobs_hosted + history.heartbeats_hosted <= u64::MAX,
    ensures
        delivery(history) is None <==> history.jobs_hosted == 0 && history.heartbeats_hosted == 0,
        delivery(history) matches Some(work) ==> work == history.jobs_hosted + history.heartbeats_hosted,
{
}

} // verus!

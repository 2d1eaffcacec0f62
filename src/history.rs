use vstd::prelude::*;

verus! {

/// One sample: when it was taken, in milliseconds on a clock that never
/// goes back, and its value, in thousandths.
#[derive(Clone, Copy, Debug, PartialEq, Eq, Structural)]
pub struct Record {
    pub time: u64,
    pub value: i64,
}

/// Which samples a history lets go after each insertion: all but the
/// newest `Count(c)`, or those more than `Age(a)` milliseconds old.
#[derive(Clone, Copy, Debug, PartialEq, Eq, Structural)]
pub enum Eviction {
    Count(usize),
    Age(u64),
}

/// How long before `now` a sample taken at `time` was taken; 0 for a sample
/// from after `now`.
pub open spec fn age(now: u64, time: u64) -> nat {
    if now >= time {
        (now - time) as nat
    } else {
        0
    }
}

pub open spec fn expired(r: Record, now: u64, max_age: u64) -> bool {
    age(now, r.time) > max_age
}

/// The number of samples at the front of `s` that are more than `max_age`
/// old at `now`.
pub open spec fn expired_prefix(s: Seq<Record>, now: u64, max_age: u64) -> nat
    decreases s.len(),
{
    if s.len() == 0 {
        0
    } else if expired(s[0], now, max_age) {
        1 + expired_prefix(s.drop_first(), now, max_age)
    } else {
        0
    }
}

/// The last `c` elements of `s`, or all of `s` where it is shorter.
pub open spec fn keep_last(s: Seq<Record>, c: nat) -> Seq<Record> {
    if s.len() > c {
        s.skip(s.len() - c)
    } else {
        s
    }
}

/// What `s` keeps under the eviction rule `p` at `now`.
pub open spec fn evict(s: Seq<Record>, now: u64, p: Eviction) -> Seq<Record> {
    match p {
        Eviction::Count(c) => keep_last(s, c as nat),
        Eviction::Age(a) => s.skip(expired_prefix(s, now, a) as int),
    }
}

/// The samples `h` holds after `r` is appended at `now` under `p`.
pub open spec fn appended(h: Seq<Record>, r: Record, now: u64, p: Eviction) -> Seq<Record> {
    evict(h.push(r), now, p)
}

/// The samples `h` holds after each of `rs` is appended in turn at `now`
/// under `p`.
pub open spec fn replay(h: Seq<Record>, rs: Seq<Record>, now: u64, p: Eviction) -> Seq<Record>
    decreases rs.len(),
{
    if rs.len() == 0 {
        h
    } else {
        appended(replay(h, rs.drop_last(), now, p), rs.last(), now, p)
    }
}

/// The samples of `s` come in the order in which they were taken.
pub open spec fn time_ordered(s: Seq<Record>) -> bool {
    forall|i: int, j: int| 0 <= i <= j < s.len() ==> s[i].time <= s[j].time
}

/// `-d`, held to what an `i64` can hold on both sides of 0.
pub open spec fn back(d: int) -> int {
    if d > i64::MAX {
        -(i64::MAX as int)
    } else {
        -d
    }
}

/// Where the sample at `i` of `s` stands on the horizontal axis of a chart,
/// counted back from 0 for the newest: in samples under `Count`, in
/// milliseconds of age under `Age`.
pub open spec fn offset(s: Seq<Record>, i: int, now: u64, p: Eviction) -> int {
    match p {
        Eviction::Count(_) => back(s.len() - 1 - i),
        Eviction::Age(_) => back(age(now, s[i].time) as int),
    }
}

fn back_of(d: u64) -> (r: i64)
    ensures
        r == back(d as int),
{
    if d > i64::MAX as u64 {
        -i64::MAX
    } else {
        -(d as i64)
    }
}

proof fn lemma_expired_prefix_step(s: Seq<Record>, i: int, now: u64, a: u64)
    requires
        0 <= i < s.len(),
        expired(s[i], now, a),
    ensures
        expired_prefix(s.skip(i), now, a) == 1 + expired_prefix(s.skip(i + 1), now, a),
{
    assert(s.skip(i).drop_first() =~= s.skip(i + 1));
}

proof fn lemma_expired_prefix_stop(s: Seq<Record>, i: int, now: u64, a: u64)
    requires
        0 <= i <= s.len(),
        i == s.len() || !expired(s[i], now, a),
    ensures
        expired_prefix(s.skip(i), now, a) == 0,
{
}

proof fn lemma_expired_prefix_bounds(s: Seq<Record>, now: u64, a: u64)
    ensures
        expired_prefix(s, now, a) <= s.len(),
        forall|j: int| 0 <= j < expired_prefix(s, now, a) ==> expired(#[trigger] s[j], now, a),
        expired_prefix(s, now, a) < s.len() ==> !expired(s[expired_prefix(s, now, a) as int], now, a),
    decreases s.len(),
{
    if s.len() > 0 && expired(s[0], now, a) {
        let t = s.drop_first();
        lemma_expired_prefix_bounds(t, now, a);
        assert forall|j: int| 0 <= j < expired_prefix(s, now, a) implies expired(#[trigger] s[j], now, a) by {
            if j > 0 {
                assert(s[j] == t[j - 1]);
            }
        }
    }
}

fn is_expired(r: Record, now: u64, max_age: u64) -> (b: bool)
    ensures
        b == expired(r, now, max_age),
{
    now >= r.time && now - r.time > max_age
}

/// The samples of one series, oldest first.
pub struct History {
    records: Vec<Record>,
}

impl View for History {
    type V = Seq<Record>;

    closed spec fn view(&self) -> Seq<Record> {
        self.records@
    }
}

impl History {
    pub fn new() -> (r: History)
        ensures
            r@ == Seq::<Record>::empty(),
    {
        History { records: Vec::new() }
    }

    pub fn len(&self) -> (r: usize)
        ensures
            r == self@.len(),
    {
        self.records.len()
    }

    /// The sample at `i`, counted from the oldest.
    pub fn get(&self, i: usize) -> (r: Record)
        requires
            i < self@.len(),
        ensures
            r == self@[i as int],
    {
        self.records[i]
    }

    /// Appends `r` at `now`, then lets go of what `p` evicts: under
    /// `Count(c)` the oldest samples beyond `c`, under `Age(a)` the samples at
    /// the front that are more than `a` old.
    pub fn append(&mut self, r: Record, now: u64, p: Eviction)
        ensures
            final(self)@ == appended(old(self)@, r, now, p),
    {
        self.records.push(r);
        let ghost s = self.records@;
        let n = self.records.len();
        let k: usize = match p {
            Eviction::Count(c) => {
                if n > c {
                    n - c
                } else {
                    0
                }
            },
            Eviction::Age(a) => {
                let mut i: usize = 0;
                assert(s.skip(0) =~= s);
                while i < n && is_expired(self.records[i], now, a)
                    invariant
                        i <= n,
                        n == s.len(),
                        self.records@ == s,
                        expired_prefix(s, now, a) == i + expired_prefix(s.skip(i as int), now, a),
                    decreases n - i,
                {
                    proof {
                        lemma_expired_prefix_step(s, i as int, now, a);
                    }
                    i = i + 1;
                }
                proof {
                    lemma_expired_prefix_stop(s, i as int, now, a);
                }
                i
            },
        };
        proof {
            assert(s.skip(0) =~= s);
        }
        if k > 0 {
            self.records = self.records.split_off(k);
        }
        proof {
            if k == 0 {
                assert(s.skip(0) =~= s);
            }
        }
    }

    /// The samples as points of a chart, oldest first: how far back each
    /// stands (see `offset`) and its value.
    pub fn points(&self, now: u64, p: Eviction) -> (r: Vec<(i64, i64)>)
        ensures
            r@.len() == self@.len(),
            forall|i: int|
                0 <= i < self@.len() ==> #[trigger] r@[i].0 == offset(self@, i, now, p) && r@[i].1
                    == self@[i].value,
    {
        let n = self.records.len();
        let mut out: Vec<(i64, i64)> = Vec::new();
        let mut i: usize = 0;
        while i < n
            invariant
                i <= n,
                n == self@.len(),
                out@.len() == i,
                forall|j: int|
                    0 <= j < i ==> #[trigger] out@[j].0 == offset(self@, j, now, p) && out@[j].1
                        == self@[j].value,
            decreases n - i,
        {
            let rec = self.records[i];
            let x: i64 = match p {
                Eviction::Count(_) => back_of((n - 1 - i) as u64),
                Eviction::Age(_) => back_of(
                    if now >= rec.time {
                        now - rec.time
                    } else {
                        0
                    },
                ),
            };
            out.push((x, rec.value));
            i = i + 1;
        }
        out
    }
}

proof fn lemma_keep_last_push(s: Seq<Record>, x: Record, c: nat)
    ensures
        keep_last(keep_last(s, c).push(x), c) == keep_last(s.push(x), c),
{
    if s.len() > c {
        assert(keep_last(keep_last(s, c).push(x), c) =~= keep_last(s.push(x), c));
    }
}

/// Under count eviction with capacity `c`, a history that starts within
/// its capacity holds, after any sequence of appends, at most `c` samples:
/// exactly the newest `c` of what it held followed by what was appended.
pub proof fn lemma_count_keeps_latest(h: Seq<Record>, rs: Seq<Record>, now: u64, c: usize)
    requires
        h.len() <= c,
    ensures
        replay(h, rs, now, Eviction::Count(c)) == keep_last(h + rs, c as nat),
        replay(h, rs, now, Eviction::Count(c)).len() <= c,
    decreases rs.len(),
{
    if rs.len() == 0 {
        assert(h + rs =~= h);
    } else {
        lemma_count_keeps_latest(h, rs.drop_last(), now, c);
        lemma_keep_last_push(h + rs.drop_last(), rs.last(), c as nat);
        assert((h + rs.drop_last()).push(rs.last()) =~= h + rs);
    }
}

/// Under age eviction with maximum age `a`, appending to a history whose
/// samples are in time order leaves only samples at most `a` old at `now`:
/// each sample that was older than that is gone.
pub proof fn lemma_age_window(h: Seq<Record>, r: Record, now: u64, a: u64)
    requires
        time_ordered(h.push(r)),
    ensures
        forall|i: int|
            0 <= i < appended(h, r, now, Eviction::Age(a)).len() ==> age(
                now,
                #[trigger] appended(h, r, now, Eviction::Age(a))[i].time,
            ) <= a,
        forall|i: int|
            0 <= i < h.len() && expired(#[trigger] h[i], now, a) ==> !appended(
                h,
                r,
                now,
                Eviction::Age(a),
            ).contains(h[i]),
{
    let s = h.push(r);
    let out = appended(h, r, now, Eviction::Age(a));
    lemma_expired_prefix_bounds(s, now, a);
    let k = expired_prefix(s, now, a) as int;
    assert forall|i: int| 0 <= i < out.len() implies age(now, #[trigger] out[i].time) <= a by {
        assert(out[i] == s[k + i]);
        assert(s[k].time <= s[k + i].time);
    }
    assert forall|i: int| 0 <= i < h.len() && expired(#[trigger] h[i], now, a) implies !out.contains(
        h[i],
    ) by {
        if out.contains(h[i]) {
            let j = choose|j: int| 0 <= j < out.len() && out[j] == h[i];
            assert(age(now, out[j].time) <= a);
        }
    }
}

} // verus!

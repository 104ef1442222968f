//! The voltage (mV) to level (%) table: the `mV:percent,...` text it is
//! written in, and the segment of the table that a voltage falls in.
//!
//! The percent column is carried as text: turning it into a number, and the
//! interpolation between two rows, are floating-point work done by the
//! caller.
use vstd::prelude::*;

use crate::text::{
    chars_of, field_end, find_char, parse_i64_range, spec_parse_i64, spec_trim, trim_range,
};

verus! {

broadcast use vstd::string::group_string_axioms;

/// The default table, fitted on five discharge logs of the device.
pub const DEFAULT_CURVE: &'static str = "3050:0,3160:2.1,3270:5.6,3460:11,3620:17.8,3630:19,3660:19.8,3690:22.4,3710:25.9,3720:29.4,3730:30.6,3740:31,3750:32.6,3800:37.7,3810:39.1,3830:40.5,3850:43,3870:44.5,3900:49.5,3910:52.2,3920:53,3930:55,3960:57.2,3970:59.3,4020:63.6,4070:66.3,4080:67.5,4090:67.6,4100:69.5,4130:71.9,4140:72.2,4150:74,4200:78,4210:79.4,4250:81.2,4260:82.7,4270:82.9,4280:84,4290:86,4310:88.4,4350:90.8,4370:94.1,4410:97.3,4460:97.9,4465:100";

/// One trimmed, nonblank `mV:percent` part: the voltage, and the trimmed
/// percent text.
pub open spec fn curve_part(part: Seq<char>) -> Option<(i64, Seq<char>)> {
    let p = field_end(part, ':');
    if p < part.len() {
        match spec_parse_i64(spec_trim(part.take(p as int))) {
            Some(mv) => Some((mv, spec_trim(part.skip(p + 1int)))),
            None => None,
        }
    } else {
        None
    }
}

/// The rows of `s`, a comma-separated list in which blank parts are skipped;
/// `None` when a part is not of the form `mV:percent`.
pub open spec fn curve_parts(s: Seq<char>) -> Option<Seq<(i64, Seq<char>)>>
    decreases s.len(),
{
    let e = field_end(s, ',');
    let part = spec_trim(s.take(e as int));
    let rest = if e < s.len() {
        curve_parts(s.skip(e + 1int))
    } else {
        Some(Seq::empty())
    };
    if part.len() == 0 {
        rest
    } else {
        match curve_part(part) {
            None => None,
            Some(pt) => match rest {
                None => None,
                Some(r) => Some(seq![pt] + r),
            },
        }
    }
}

/// No voltage occurs twice among the rows.
pub open spec fn distinct_mv(ps: Seq<(i64, Seq<char>)>) -> bool {
    forall|i: int, j: int| 0 <= i < j < ps.len() ==> ps[i].0 != ps[j].0
}

/// The rows are in strictly increasing order of voltage.
pub open spec fn increasing_mv(ps: Seq<(i64, Seq<char>)>) -> bool {
    forall|i: int, j: int| 0 <= i < j < ps.len() ==> ps[i].0 < ps[j].0
}

/// The voltages are strictly increasing.
pub open spec fn increasing(mvs: Seq<i64>) -> bool {
    forall|i: int, j: int| 0 <= i < j < mvs.len() ==> mvs[i] < mvs[j]
}

/// A parsed table: voltages in strictly increasing order, each with the
/// text of its percent.
pub struct CurveTable {
    pub mvs: Vec<i64>,
    pub pct_texts: Vec<String>,
}

impl CurveTable {
    /// The rows of the table.
    pub open spec fn points(&self) -> Seq<(i64, Seq<char>)> {
        Seq::new(self.mvs@.len(), |i: int| (self.mvs@[i], self.pct_texts@[i]@))
    }

    /// The two columns have one entry per row.
    pub open spec fn wf(&self) -> bool {
        self.mvs@.len() == self.pct_texts@.len()
    }

    /// Reads a table written as `mV:percent,mV:percent,...`. It is refused
    /// when a part is malformed, when it has fewer than two rows, or when a
    /// voltage occurs twice; otherwise its rows are those of the text,
    /// ordered by voltage.
    pub fn parse(s: &str) -> (r: Option<CurveTable>)
        ensures
            r is Some <==> (curve_parts(s@) matches Some(ps) && ps.len() >= 2 && distinct_mv(ps)),
            r matches Some(t) ==> {
                &&& t.wf()
                &&& t.mvs@.len() >= 2
                &&& increasing(t.mvs@)
                &&& increasing_mv(t.points())
                &&& curve_parts(s@) matches Some(ps) && t.points().len() == ps.len() && (
                forall|i: int| 0 <= i < ps.len() ==> t.points().contains(#[trigger] ps[i])) && (
                forall|k: int| 0 <= k < ps.len() ==> ps.contains(#[trigger] t.points()[k]))
            },
    {
        let c = chars_of(s);
        let parts = match collect_parts(&c) {
            Some(p) => p,
            None => return None,
        };
        let ghost ps = rows_view(c@, parts@);
        if parts.len() < 2 {
            return None;
        }
        let sorted = match sort_distinct(&parts) {
            Some(o) => o,
            None => {
                proof {
                    let (i, j) = choose|i: int, j: int|
                        0 <= i < j < parts@.len() && parts@[i].0 == parts@[j].0;
                    assert(ps[i].0 == parts@[i].0 && ps[j].0 == parts@[j].0);
                }
                return None;
            },
        };
        let ghost os = rows_view(c@, sorted@);
        proof {
            assert forall|i: int, j: int| 0 <= i < j < ps.len() implies ps[i].0 != ps[j].0 by {
                assert(ps[i].0 == parts@[i].0 && ps[j].0 == parts@[j].0);
            }
            assert forall|i: int| 0 <= i < ps.len() implies os.contains(#[trigger] ps[i]) by {
                assert(sorted@.contains(parts@[i]));
                let m = choose|m: int| 0 <= m < sorted@.len() && sorted@[m] == parts@[i];
                assert(os[m] == ps[i]);
            }
            assert forall|k: int| 0 <= k < os.len() implies ps.contains(#[trigger] os[k]) by {
                assert(parts@.contains(sorted@[k]));
                let m = choose|m: int| 0 <= m < parts@.len() && parts@[m] == sorted@[k];
                assert(ps[m] == os[k]);
            }
        }
        let mut mvs: Vec<i64> = Vec::new();
        let mut pct_texts: Vec<String> = Vec::new();
        let mut i: usize = 0;
        while i < sorted.len()
            invariant
                i <= sorted.len(),
                c@ == s@,
                os == rows_view(c@, sorted@),
                rows_in_bounds(c@, sorted@),
                mvs@.len() == i,
                pct_texts@.len() == i,
                forall|k: int| 0 <= k < i ==> mvs@[k] == sorted@[k].0,
                forall|k: int| 0 <= k < i ==> #[trigger] pct_texts@[k]@ == os[k].1,
            decreases sorted.len() - i,
        {
            let (mv, a, b) = sorted[i];
            mvs.push(mv);
            pct_texts.push(String::from_str(s.substring_char(a, b)));
            i = i + 1;
        }
        let t = CurveTable { mvs, pct_texts };
        proof {
            assert(t.points() =~= os);
            assert forall|a: int, b: int| 0 <= a < b < t.mvs@.len() implies t.mvs@[a] < t.mvs@[b] by {
                assert(t.mvs@[a] == sorted@[a].0 && t.mvs@[b] == sorted@[b].0);
            }
        }
        Some(t)
    }
}

/// The rows that `(mV, start, end)` triples denote in `s`.
pub open spec fn rows_view(s: Seq<char>, v: Seq<(i64, usize, usize)>) -> Seq<(i64, Seq<char>)> {
    Seq::new(v.len(), |i: int| (v[i].0, s.subrange(v[i].1 as int, v[i].2 as int)))
}

/// Each triple bounds a range of `s`.
pub open spec fn rows_in_bounds(s: Seq<char>, v: Seq<(i64, usize, usize)>) -> bool {
    forall|i: int| 0 <= i < v.len() ==> v[i].1 <= #[trigger] v[i].2 <= s.len()
}

/// The rows of the table text `s`, each as its voltage and the bounds of
/// its percent text.
fn collect_parts(s: &Vec<char>) -> (r: Option<Vec<(i64, usize, usize)>>)
    ensures
        match r {
            Some(v) => rows_in_bounds(s@, v@) && curve_parts(s@) == Some(rows_view(s@, v@)),
            None => curve_parts(s@) is None,
        },
{
    let mut acc: Vec<(i64, usize, usize)> = Vec::new();
    let mut start: usize = 0;
    assert(s@.skip(0) =~= s@);
    assert(rows_view(s@, acc@) =~= Seq::<(i64, Seq<char>)>::empty());
    loop
        invariant
            start <= s.len(),
            rows_in_bounds(s@, acc@),
            curve_parts(s@) == match curve_parts(s@.skip(start as int)) {
                Some(r) => Some(rows_view(s@, acc@) + r),
                None => None,
            },
        decreases s.len() - start,
    {
        let e = find_char(s, start, s.len(), ',');
        let ghost t = s@.skip(start as int);
        proof {
            assert(t =~= s@.subrange(start as int, s.len() as int));
            assert(t.take(e - start) =~= s@.subrange(start as int, e as int));
            if e < s.len() {
                assert(t.skip(e - start + 1) =~= s@.skip(e + 1));
            }
        }
        let (pa, pb) = trim_range(s, start, e);
        let ghost part = s@.subrange(pa as int, pb as int);
        if pa < pb {
            let colon = find_char(s, pa, pb, ':');
            if colon == pb {
                return None;
            }
            let (ma, mb) = trim_range(s, pa, colon);
            let (va, vb) = trim_range(s, colon + 1, pb);
            proof {
                assert(part.take(colon - pa) =~= s@.subrange(pa as int, colon as int));
                assert(part.skip(colon - pa + 1) =~= s@.subrange(colon + 1, pb as int));
            }
            let mv = match parse_i64_range(s, ma, mb) {
                Some(v) => v,
                None => return None,
            };
            let ghost old_acc = acc@;
            acc.push((mv, va, vb));
            proof {
                let pt = (mv, s@.subrange(va as int, vb as int));
                assert(curve_part(part) == Some(pt));
                assert(rows_view(s@, acc@) =~= rows_view(s@, old_acc).push(pt));
                if e < s.len() {
                    match curve_parts(s@.skip(e + 1)) {
                        Some(r) => {
                            assert(rows_view(s@, old_acc) + (seq![pt] + r) =~= rows_view(
                                s@,
                                acc@,
                            ) + r);
                        },
                        None => {},
                    }
                } else {
                    assert(rows_view(s@, old_acc) + (seq![pt] + Seq::empty()) =~= rows_view(
                        s@,
                        acc@,
                    ) + Seq::empty());
                }
            }
        }
        if e < s.len() {
            start = e + 1;
        } else {
            proof {
                assert(rows_view(s@, acc@) + Seq::empty() =~= rows_view(s@, acc@));
            }
            return Some(acc);
        }
    }
}

/// The triples of `v` ordered by voltage, or `None` when a voltage occurs
/// twice.
fn sort_distinct(v: &Vec<(i64, usize, usize)>) -> (r: Option<Vec<(i64, usize, usize)>>)
    ensures
        r is Some <==> (forall|i: int, j: int| 0 <= i < j < v@.len() ==> v@[i].0 != v@[j].0),
        r matches Some(o) ==> {
            &&& o@.len() == v@.len()
            &&& forall|i: int, j: int| 0 <= i < j < o@.len() ==> o@[i].0 < o@[j].0
            &&& forall|i: int| 0 <= i < v@.len() ==> o@.contains(#[trigger] v@[i])
            &&& forall|k: int| 0 <= k < o@.len() ==> v@.contains(#[trigger] o@[k])
        },
{
    let mut out: Vec<(i64, usize, usize)> = Vec::new();
    let mut i: usize = 0;
    while i < v.len()
        invariant
            i <= v.len(),
            out@.len() == i,
            forall|a: int, b: int| 0 <= a < b < out@.len() ==> out@[a].0 < out@[b].0,
            forall|a: int, b: int| 0 <= a < b < i ==> v@[a].0 != v@[b].0,
            forall|j: int| 0 <= j < i ==> out@.contains(#[trigger] v@[j]),
            forall|k: int|
                0 <= k < out@.len() ==> exists|j: int| 0 <= j < i && #[trigger] out@[k] == #[trigger] v@[j],
        decreases v.len() - i,
    {
        let x = v[i];
        let mut k: usize = 0;
        while k < out.len() && out[k].0 < x.0
            invariant
                k <= out.len(),
                forall|a: int| 0 <= a < k ==> out@[a].0 < x.0,
            decreases out.len() - k,
        {
            k = k + 1;
        }
        if k < out.len() && out[k].0 == x.0 {
            proof {
                let j = choose|j: int| 0 <= j < i && out@[k as int] == #[trigger] v@[j];
                assert(v@[j].0 == v@[i as int].0);
            }
            return None;
        }
        let ghost old_out = out@;
        out.insert(k, x);
        proof {
            assert(out@ == old_out.insert(k as int, x));
            assert forall|a: int, b: int| 0 <= a < b < out@.len() implies out@[a].0 < out@[b].0 by {
                if b < k {
                    assert(out@[a] == old_out[a] && out@[b] == old_out[b]);
                } else if b == k {
                    assert(out@[a] == old_out[a]);
                } else if a < k {
                    assert(out@[a] == old_out[a] && out@[b] == old_out[b - 1]);
                    if k < old_out.len() {
                        assert(old_out[k as int].0 > x.0);
                        assert(old_out[k as int].0 <= old_out[b - 1].0);
                    }
                } else if a == k {
                    assert(out@[b] == old_out[b - 1]);
                    assert(old_out[k as int].0 > x.0);
                    assert(old_out[k as int].0 <= old_out[b - 1].0);
                } else {
                    assert(out@[a] == old_out[a - 1] && out@[b] == old_out[b - 1]);
                }
            }
            assert forall|a: int, b: int| 0 <= a < b < i + 1 implies v@[a].0 != v@[b].0 by {
                if b == i {
                    assert(old_out.contains(v@[a]));
                    let m = choose|m: int| 0 <= m < old_out.len() && old_out[m] == v@[a];
                    if m < k {
                        assert(old_out[m].0 < x.0);
                    } else {
                        assert(old_out[k as int].0 > x.0);
                        assert(old_out[k as int].0 <= old_out[m].0);
                    }
                }
            }
            assert forall|j: int| 0 <= j < i + 1 implies out@.contains(#[trigger] v@[j]) by {
                if j == i {
                    assert(out@[k as int] == x);
                } else {
                    assert(old_out.contains(v@[j]));
                    let m = choose|m: int| 0 <= m < old_out.len() && old_out[m] == v@[j];
                    if m < k {
                        assert(out@[m] == v@[j]);
                    } else {
                        assert(out@[m + 1] == v@[j]);
                    }
                }
            }
            assert forall|q: int| 0 <= q < out@.len() implies exists|j: int|
                0 <= j < i + 1 && #[trigger] out@[q] == #[trigger] v@[j] by {
                if q < k {
                    assert(out@[q] == old_out[q]);
                    let j = choose|j: int| 0 <= j < i && old_out[q] == #[trigger] v@[j];
                    assert(out@[q] == v@[j]);
                } else if q == k {
                    assert(out@[q] == v@[i as int]);
                } else {
                    assert(out@[q] == old_out[q - 1]);
                    let j = choose|j: int| 0 <= j < i && old_out[q - 1] == #[trigger] v@[j];
                    assert(out@[q] == v@[j]);
                }
            }
        }
        i = i + 1;
    }
    proof {
        assert forall|k: int| 0 <= k < out@.len() implies v@.contains(#[trigger] out@[k]) by {
            let j = choose|j: int| 0 <= j < i && out@[k] == #[trigger] v@[j];
        }
    }
    Some(out)
}

/// Where a voltage falls in a table of voltages.
#[derive(Clone, Copy, Debug, PartialEq, Eq)]
pub enum Segment {
    /// At or under the first voltage: the first row's level applies.
    Below,
    /// At or over the last voltage (or in no segment): the last row's level
    /// applies.
    Above,
    /// Between the voltages of rows `i` and `i + 1`, both included.
    Within(usize),
}

/// Row `i` and row `i + 1` enclose `mv`.
pub open spec fn in_window(mvs: Seq<i64>, i: int, mv: i64) -> bool {
    0 <= i && i + 1 < mvs.len() && mvs[i] <= mv && mv <= mvs[i + 1]
}

/// The segment of the table `mvs` that `mv` falls in; `Within` names the
/// first pair of neighbouring rows that encloses it.
pub fn segment(mvs: &Vec<i64>, mv: i64) -> (r: Segment)
    requires
        mvs.len() >= 1,
    ensures
        match r {
            Segment::Below => mv <= mvs@[0],
            Segment::Above => mv > mvs@[0] && (mv >= mvs@.last() || forall|i: int|
                !in_window(mvs@, i, mv)),
            Segment::Within(i) => {
                &&& mvs@[0] < mv < mvs@.last()
                &&& in_window(mvs@, i as int, mv)
                &&& forall|j: int| 0 <= j < i ==> !in_window(mvs@, j, mv)
            },
        },
{
    let last = mvs.len() - 1;
    if mv <= mvs[0] {
        return Segment::Below;
    }
    if mv >= mvs[last] {
        return Segment::Above;
    }
    let mut i: usize = 0;
    while i < last
        invariant
            last == mvs.len() - 1,
            i <= last,
            mvs@[0] < mv < mvs@.last(),
            forall|j: int| 0 <= j < i ==> !in_window(mvs@, j, mv),
        decreases last - i,
    {
        if mv >= mvs[i] && mv <= mvs[i + 1] {
            return Segment::Within(i);
        }
        i = i + 1;
    }
    assert forall|j: int| !in_window(mvs@, j, mv) by {
        if 0 <= j && j + 1 < mvs@.len() {
            assert(j < i);
        }
    }
    Segment::Above
}

proof fn lemma_window_from(mvs: Seq<i64>, mv: i64, k: int)
    requires
        0 <= k < mvs.len() - 1,
        mvs[k] <= mv < mvs.last(),
    ensures
        exists|i: int| in_window(mvs, i, mv),
    decreases mvs.len() - k,
{
    if mv <= mvs[k + 1] {
        assert(in_window(mvs, k, mv));
    } else {
        lemma_window_from(mvs, mv, k + 1);
    }
}

/// In a table with increasing voltages, a voltage strictly between the first
/// and the last one always falls in some segment.
pub proof fn lemma_inner_voltage_has_segment(mvs: Seq<i64>, mv: i64)
    requires
        mvs.len() >= 2,
        increasing(mvs),
        mvs[0] < mv < mvs.last(),
    ensures
        exists|i: int| in_window(mvs, i, mv),
{
    lemma_window_from(mvs, mv, 0);
}

} // verus!

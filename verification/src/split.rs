//! Splitting text into pieces and words, and joining pieces back together.
//!
//! Two ways of splitting are modelled: the *pieces* between separators, empty
//! ones included (`str::split` with a character predicate), and the *runs*,
//! the maximal non-empty stretches without a separator (`split_whitespace`, or
//! `split(..)` followed by dropping empty pieces).

use vstd::prelude::*;

use crate::text::{
    CharClass,
    chars_of,
    same_chars,
    first_in_class_from,
    find_class_from,
    lemma_first_in_class_bounds,
    slice_chars,
    extend_chars,
};

verus! {

/// The views of a list of character vectors.
pub open spec fn views(v: Seq<Vec<char>>) -> Seq<Seq<char>> {
    v.map_values(|x: Vec<char>| x@)
}

/// The views of a list of strings.
pub open spec fn string_views(v: Seq<String>) -> Seq<Seq<char>> {
    v.map_values(|x: String| x@)
}

/// The view of an optional string.
pub open spec fn opt_view(v: Option<String>) -> Option<Seq<char>> {
    match v {
        Some(s) => Some(s@),
        None => None,
    }
}

/// Whether `pat` occurs somewhere in `s` (`str::contains`).
pub open spec fn contains_spec(s: Seq<char>, pat: Seq<char>) -> bool {
    crate::text::first_match_from(s, pat, 0) is Some
}

/// Where the run that starts at `j` ends: the next separator, or the end.
pub open spec fn run_end(s: Seq<char>, class: CharClass, j: int) -> int {
    match first_in_class_from(s, class, true, j) {
        Some(k) => k,
        None => s.len() as int,
    }
}

/// The maximal runs of characters outside `class`, at or after `from`.
pub open spec fn runs_from(s: Seq<char>, class: CharClass, from: int) -> Seq<Seq<char>>
    decreases s.len() - from,
{
    if from < 0 || from >= s.len() {
        Seq::empty()
    } else {
        match first_in_class_from(s, class, false, from) {
            None => Seq::empty(),
            Some(j) => if from <= j && j < run_end(s, class, j) && run_end(s, class, j) <= s.len() {
                seq![s.subrange(j, run_end(s, class, j))] + runs_from(s, class, run_end(s, class, j))
            } else {
                Seq::empty()
            },
        }
    }
}

/// The maximal runs of characters outside `class`.
pub open spec fn runs(s: Seq<char>, class: CharClass) -> Seq<Seq<char>> {
    runs_from(s, class, 0)
}

/// The words of `s`: `str::split_whitespace`.
pub open spec fn words(s: Seq<char>) -> Seq<Seq<char>> {
    runs(s, CharClass::Whitespace)
}

/// The pieces between the characters of `class`, from `from` on.
pub open spec fn pieces_from(s: Seq<char>, class: CharClass, from: int) -> Seq<Seq<char>>
    decreases s.len() - from,
{
    if from < 0 || from > s.len() {
        Seq::empty()
    } else {
        match first_in_class_from(s, class, true, from) {
            None => seq![s.subrange(from, s.len() as int)],
            Some(k) => if from <= k < s.len() {
                seq![s.subrange(from, k)] + pieces_from(s, class, k + 1)
            } else {
                Seq::empty()
            },
        }
    }
}

/// The pieces between the characters of `class`: `str::split`.
pub open spec fn pieces(s: Seq<char>, class: CharClass) -> Seq<Seq<char>> {
    pieces_from(s, class, 0)
}

/// The parts joined with `sep` between each two: `[..].join(sep)`.
pub open spec fn join_with(parts: Seq<Seq<char>>, sep: Seq<char>) -> Seq<char>
    decreases parts.len(),
{
    if parts.len() == 0 {
        Seq::empty()
    } else if parts.len() == 1 {
        parts[0]
    } else {
        join_with(parts.drop_last(), sep) + sep + parts.last()
    }
}

/// A run starts at the first character outside `class` and ends at the next
/// character in it.
pub proof fn lemma_runs_step(s: Seq<char>, class: CharClass, from: int)
    requires
        0 <= from <= s.len(),
    ensures
        first_in_class_from(s, class, false, from) is None ==> runs_from(s, class, from)
            == Seq::<Seq<char>>::empty(),
        first_in_class_from(s, class, false, from) matches Some(j) ==> {
            &&& from <= j < run_end(s, class, j) <= s.len()
            &&& runs_from(s, class, from) == seq![s.subrange(j, run_end(s, class, j))]
                + runs_from(s, class, run_end(s, class, j))
        },
{
    lemma_first_in_class_bounds(s, class, false, from);
    match first_in_class_from(s, class, false, from) {
        Some(j) => {
            lemma_first_in_class_bounds(s, class, true, j);
        },
        None => {},
    }
}

/// `runs` as a vector of character vectors.
pub fn split_runs(s: &[char], class: CharClass) -> (r: Vec<Vec<char>>)
    ensures
        views(r@) == runs(s@, class),
{
    let mut out: Vec<Vec<char>> = Vec::new();
    let mut i: usize = 0;
    while i < s.len()
        invariant
            i <= s.len(),
            views(out@) + runs_from(s@, class, i as int) == runs(s@, class),
        decreases s.len() - i,
    {
        proof {
            lemma_runs_step(s@, class, i as int);
        }
        let j = match find_class_from(s, class, false, i) {
            Some(j) => j,
            None => {
                assert(views(out@) + runs_from(s@, class, i as int) =~= views(out@));
                return out;
            },
        };
        let k = match find_class_from(s, class, true, j) {
            Some(k) => k,
            None => s.len(),
        };
        let piece = slice_chars(s, j, k);
        let ghost before = out@;
        out.push(piece);
        assert(views(out@) =~= views(before).push(piece@));
        assert(views(out@) + runs_from(s@, class, k as int) =~= views(before) + (seq![piece@]
            + runs_from(s@, class, k as int)));
        i = k;
    }
    assert(views(out@) + runs_from(s@, class, i as int) =~= views(out@));
    out
}

/// `pieces` as a vector of character vectors.
pub fn split_pieces(s: &[char], class: CharClass) -> (r: Vec<Vec<char>>)
    ensures
        views(r@) == pieces(s@, class),
        r@.len() >= 1,
{
    let mut out: Vec<Vec<char>> = Vec::new();
    let mut i: usize = 0;
    loop
        invariant
            i <= s.len(),
            views(out@) + pieces_from(s@, class, i as int) == pieces(s@, class),
        decreases s.len() - i,
    {
        proof {
            lemma_first_in_class_bounds(s@, class, true, i as int);
        }
        match find_class_from(s, class, true, i) {
            Some(k) => {
                let piece = slice_chars(s, i, k);
                let ghost before = out@;
                out.push(piece);
                assert(views(out@) =~= views(before).push(piece@));
                assert(views(out@) + pieces_from(s@, class, k + 1) =~= views(before) + (seq![piece@]
                    + pieces_from(s@, class, k + 1)));
                i = k + 1;
            },
            None => {
                let piece = slice_chars(s, i, s.len());
                let ghost before = out@;
                out.push(piece);
                assert(views(out@) =~= views(before) + seq![piece@]);
                return out;
            },
        }
    }
}

/// The parts joined with `sep` between each two.
pub fn join_parts(parts: &Vec<Vec<char>>, sep: &[char]) -> (r: Vec<char>)
    ensures
        r@ == join_with(views(parts@), sep@),
{
    let mut out: Vec<char> = Vec::new();
    let mut i: usize = 0;
    while i < parts.len()
        invariant
            i <= parts.len(),
            out@ == join_with(views(parts@).take(i as int), sep@),
        decreases parts.len() - i,
    {
        let ghost prev = views(parts@).take(i as int);
        if i > 0 {
            extend_chars(&mut out, sep);
        }
        extend_chars(&mut out, parts[i].as_slice());
        proof {
            let next = views(parts@).take(i + 1);
            assert(next.drop_last() =~= prev);
            assert(next.last() == parts@[i as int]@);
            if i == 0 {
                assert(next.len() == 1);
                assert(out@ =~= next[0]);
            }
        }
        i = i + 1;
    }
    assert(views(parts@).take(parts.len() as int) =~= views(parts@));
    out
}

/// The last name among path segments: trailing `.` segments are skipped, a
/// trailing `..` has none.
pub open spec fn last_name(segs: Seq<Seq<char>>) -> Option<Seq<char>>
    decreases segs.len(),
{
    if segs.len() == 0 {
        None
    } else if segs.last() == "."@ {
        last_name(segs.drop_last())
    } else if segs.last() == ".."@ {
        None
    } else {
        Some(segs.last())
    }
}

/// The final component of a path, as `Path::file_name` gives it: the last
/// `/`-separated segment that is not `.`, unless that segment is `..`.
pub open spec fn file_name_spec(path: Seq<char>) -> Option<Seq<char>> {
    last_name(runs(path, CharClass::Slash))
}

/// The final component of a path.
pub fn file_name(path: &[char]) -> (r: Option<Vec<char>>)
    ensures
        r matches Some(v) ==> file_name_spec(path@) == Some(v@),
        r is None ==> file_name_spec(path@) is None,
{
    let segs = split_runs(path, CharClass::Slash);
    let dot = chars_of(".");
    let dotdot = chars_of("..");
    let mut n: usize = segs.len();
    assert(views(segs@).take(n as int) =~= views(segs@));
    while n > 0
        invariant
            n <= segs.len(),
            dot@ == "."@,
            dotdot@ == ".."@,
            views(segs@) == runs(path@, CharClass::Slash),
            last_name(views(segs@)) == last_name(views(segs@).take(n as int)),
        decreases n,
    {
        let seg = &segs[n - 1];
        assert(views(segs@).take(n as int).drop_last() =~= views(segs@).take(n - 1));
        assert(views(segs@).take(n as int).last() == seg@);
        if same_chars(seg.as_slice(), dot.as_slice()) {
            n = n - 1;
        } else if same_chars(seg.as_slice(), dotdot.as_slice()) {
            return None;
        } else {
            return Some(slice_chars(seg.as_slice(), 0, seg.len()));
        }
    }
    None
}

/// Every run is non-empty.
pub proof fn lemma_runs_nonempty(s: Seq<char>, class: CharClass, from: int)
    requires
        0 <= from <= s.len(),
    ensures
        forall|k: int| 0 <= k < runs_from(s, class, from).len() ==> (#[trigger] runs_from(s, class, from)[k]).len() > 0,
    decreases s.len() - from,
{
    lemma_runs_step(s, class, from);
    match first_in_class_from(s, class, false, from) {
        None => {},
        Some(j) => {
            let k = run_end(s, class, j);
            lemma_runs_nonempty(s, class, k);
            assert forall|m: int| 0 <= m < runs_from(s, class, from).len() implies (
            #[trigger] runs_from(s, class, from)[m]).len() > 0 by {
                if m > 0 {
                    assert(runs_from(s, class, from)[m] == runs_from(s, class, k)[m - 1]);
                }
            }
        },
    }
}

} // verus!

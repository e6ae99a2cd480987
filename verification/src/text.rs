//! Character-level text operations: the chars of a string, the occurrences of a
//! pattern in it, and the pieces it falls into between those occurrences.
use vstd::prelude::*;

verus! {

/// `pat` occurs in `s` starting at position `i`.
pub open spec fn occurs_at(s: Seq<char>, pat: Seq<char>, i: int) -> bool {
    0 <= i && i + pat.len() <= s.len() && s.subrange(i, i + pat.len()) == pat
}

/// The leftmost position at or after `from` where the non-empty pattern `pat`
/// occurs in `s`; `None` when there is none (or `pat` is empty).
pub open spec fn first_occurrence(s: Seq<char>, pat: Seq<char>, from: int) -> Option<int>
    decreases s.len() - from,
{
    if pat.len() == 0 || from < 0 || from + pat.len() > s.len() {
        None
    } else if occurs_at(s, pat, from) {
        Some(from)
    } else {
        first_occurrence(s, pat, from + 1)
    }
}

/// What `first_occurrence` returns: the least position at or after `from` where
/// `pat` occurs, or `None` when it occurs at none of them.
pub proof fn lemma_first_occurrence(s: Seq<char>, pat: Seq<char>, from: int)
    requires
        0 <= from,
        pat.len() > 0,
    ensures
        first_occurrence(s, pat, from) matches Some(i) ==> {
            &&& from <= i
            &&& occurs_at(s, pat, i)
            &&& forall|j: int| from <= j < i ==> !occurs_at(s, pat, j)
        },
        first_occurrence(s, pat, from) is None ==> forall|j: int| from <= j ==> !occurs_at(s, pat, j),
    decreases s.len() - from,
{
    if from + pat.len() > s.len() {
    } else if occurs_at(s, pat, from) {
    } else {
        lemma_first_occurrence(s, pat, from + 1);
    }
}

/// The pieces of `s` from position `from` on, cut at each leftmost
/// non-overlapping occurrence of the non-empty pattern `pat`.
pub open spec fn pieces_from(s: Seq<char>, pat: Seq<char>, from: int) -> Seq<Seq<char>>
    decreases s.len() - from,
{
    if pat.len() == 0 || from < 0 || from > s.len() {
        seq![s.subrange(from, s.len() as int)]
    } else {
        match first_occurrence(s, pat, from) {
            Some(i) => {
                proof {
                    lemma_first_occurrence(s, pat, from);
                }
                seq![s.subrange(from, i)] + pieces_from(s, pat, i + pat.len())
            },
            None => seq![s.subrange(from, s.len() as int)],
        }
    }
}

/// The pieces of `s` between the occurrences of `pat`, left to right: for the
/// non-empty pattern `pat`, the same pieces as `str::split` yields.
pub open spec fn split(s: Seq<char>, pat: Seq<char>) -> Seq<Seq<char>> {
    pieces_from(s, pat, 0)
}

/// The pieces `ps` written one after the other.
pub open spec fn joined(ps: Seq<Seq<char>>) -> Seq<char>
    decreases ps.len(),
{
    if ps.len() == 0 {
        Seq::empty()
    } else {
        joined(ps.drop_last()) + ps.last()
    }
}

/// `s` with every leftmost non-overlapping occurrence of `pat` taken out.
pub open spec fn without(s: Seq<char>, pat: Seq<char>) -> Seq<char> {
    joined(split(s, pat))
}

/// The views of a vector of strings.
pub open spec fn views(v: Seq<String>) -> Seq<Seq<char>> {
    v.map_values(|x: String| x@)
}

/// The characters of `s`, in order.
pub fn chars_of(s: &str) -> (v: Vec<char>)
    ensures
        v@ == s@,
{
    let mut v: Vec<char> = Vec::new();
    for c in it: s.chars()
        invariant
            v@ == it.seq().take(it.index()),
            it.seq() == s@,
    {
        v.push(c);
    }
    v
}


/// Whether the characters `pat` occur in `s` at position `i`.
fn occurs_at_exec(s: &Vec<char>, pat: &Vec<char>, i: usize) -> (r: bool)
    ensures
        r == occurs_at(s@, pat@, i as int),
{
    if i > s.len() || pat.len() > s.len() - i {
        return false;
    }
    let m = pat.len();
    let mut k: usize = 0;
    while k < m
        invariant
            i + m <= s.len(),
            m == pat@.len(),
            k <= m,
            forall|j: int| 0 <= j < k ==> s@[i + j] == pat@[j],
        decreases m - k,
    {
        if s[i + k] != pat[k] {
            assert(s@.subrange(i as int, i + m)[k as int] != pat@[k as int]);
            return false;
        }
        k = k + 1;
    }
    assert(s@.subrange(i as int, i + m) =~= pat@);
    true
}

/// The leftmost position at or after `from` where the non-empty `pat` occurs in `s`.
fn first_occurrence_exec(s: &Vec<char>, pat: &Vec<char>, from: usize) -> (r: Option<usize>)
    requires
        pat@.len() > 0,
    ensures
        r matches Some(i) ==> first_occurrence(s@, pat@, from as int) == Some(i as int),
        r is None ==> first_occurrence(s@, pat@, from as int) is None,
{
    let mut j = from;
    while j <= s.len() && pat.len() <= s.len() - j
        invariant
            pat@.len() > 0,
            from <= j,
            first_occurrence(s@, pat@, from as int) == first_occurrence(s@, pat@, j as int),
        decreases s.len() + 1 - j,
    {
        if occurs_at_exec(s, pat, j) {
            return Some(j);
        }
        j = j + 1;
    }
    None
}

/// The pieces of `s` between the occurrences of the non-empty pattern `pat`.
pub fn split_str(s: &str, pat: &str) -> (pieces: Vec<String>)
    requires
        pat@.len() > 0,
    ensures
        views(pieces@) == split(s@, pat@),
{
    let sc = chars_of(s);
    let pc = chars_of(pat);
    let n = sc.len();
    let m = pc.len();
    let mut pieces: Vec<String> = Vec::new();
    let mut start: usize = 0;
    loop
        invariant
            n == sc@.len(),
            m == pc@.len(),
            sc@ == s@,
            pc@ == pat@,
            pat@.len() > 0,
            start <= sc@.len(),
            views(pieces@) + pieces_from(s@, pat@, start as int) == split(s@, pat@),
        decreases sc@.len() - start,
    {
        match first_occurrence_exec(&sc, &pc, start) {
            Some(i) => {
                proof {
                    lemma_first_occurrence(s@, pat@, start as int);
                    assert(occurs_at(s@, pat@, i as int));
                    assert(i + m <= n);
                }
                let next = i + m;
                let piece = String::from_str(s.substring_char(start, i));
                let ghost before = pieces@;
                pieces.push(piece);
                assert(views(pieces@) =~= views(before).push(piece@));
                assert(pieces_from(s@, pat@, start as int) == seq![s@.subrange(start as int, i as int)]
                    + pieces_from(s@, pat@, i + pat@.len()));
                assert(views(pieces@) + pieces_from(s@, pat@, i + pat@.len()) =~= views(before)
                    + pieces_from(s@, pat@, start as int));
                start = next;
            },
            None => {
                let piece = String::from_str(s.substring_char(start, n));
                let ghost before = pieces@;
                pieces.push(piece);
                assert(views(pieces@) =~= views(before) + pieces_from(s@, pat@, start as int));
                return pieces;
            },
        }
    }
}

/// `s` with every leftmost non-overlapping occurrence of the non-empty `pat`
/// taken out, as `str::replace(pat, "")` leaves it.
pub fn remove_all(s: &str, pat: &str) -> (r: String)
    requires
        pat@.len() > 0,
    ensures
        r@ == without(s@, pat@),
{
    let pieces = split_str(s, pat);
    let mut r = String::new();
    let mut k: usize = 0;
    while k < pieces.len()
        invariant
            k <= pieces@.len(),
            views(pieces@) == split(s@, pat@),
            r@ == joined(views(pieces@).take(k as int)),
        decreases pieces@.len() - k,
    {
        r.append(pieces[k].as_str());
        assert(views(pieces@).take(k + 1).drop_last() =~= views(pieces@).take(k as int));
        k = k + 1;
    }
    assert(views(pieces@).take(k as int) =~= views(pieces@));
    r
}

} // verus!

verus! {

/// Whether `a` and `b` are the same text.
pub fn same_text(a: &str, b: &str) -> (r: bool)
    ensures
        r == (a@ == b@),
{
    String::from_str(a) == String::from_str(b)
}

} // verus!

verus! {

/// The text of an optional string.
pub open spec fn opt_view(o: Option<String>) -> Option<Seq<char>> {
    match o {
        Some(s) => Some(s@),
        None => None,
    }
}

} // verus!

verus! {

/// The least position at or after `from` where `pat` occurs is its first occurrence.
pub proof fn lemma_first_occurrence_at(s: Seq<char>, pat: Seq<char>, from: int, i: int)
    requires
        0 <= from <= i,
        pat.len() > 0,
        occurs_at(s, pat, i),
        forall|j: int| from <= j < i ==> !occurs_at(s, pat, j),
    ensures
        first_occurrence(s, pat, from) == Some(i),
    decreases i - from,
{
    if from < i {
        lemma_first_occurrence_at(s, pat, from + 1, i);
    }
}

/// Where `pat` occurs nowhere at or after `from`, it has no first occurrence there.
pub proof fn lemma_no_occurrence(s: Seq<char>, pat: Seq<char>, from: int)
    requires
        0 <= from,
        pat.len() > 0,
        forall|j: int| from <= j ==> !occurs_at(s, pat, j),
    ensures
        first_occurrence(s, pat, from) is None,
    decreases s.len() - from,
{
    if from + pat.len() <= s.len() {
        lemma_no_occurrence(s, pat, from + 1);
    }
}

/// An occurrence in a part of a text is an occurrence in the text, shifted by
/// where the part begins.
pub proof fn lemma_occurs_in_part(s: Seq<char>, pat: Seq<char>, start: int, end: int, j: int)
    requires
        0 <= start <= end <= s.len(),
        start <= j,
        j + pat.len() <= end,
    ensures
        occurs_at(s, pat, j) == occurs_at(s.subrange(start, end), pat, j - start),
{
    assert(s.subrange(j, j + pat.len()) =~= s.subrange(start, end).subrange(j - start, j - start
        + pat.len()));
}

} // verus!

verus! {

/// The pieces `ps` written one after the other with `pat` between each two.
pub open spec fn rejoined(ps: Seq<Seq<char>>, pat: Seq<char>) -> Seq<char>
    decreases ps.len(),
{
    if ps.len() == 0 {
        Seq::empty()
    } else if ps.len() == 1 {
        ps[0]
    } else {
        ps[0] + pat + rejoined(ps.drop_first(), pat)
    }
}

proof fn lemma_pieces_from_rejoined(s: Seq<char>, pat: Seq<char>, from: int)
    requires
        pat.len() > 0,
        0 <= from <= s.len(),
    ensures
        pieces_from(s, pat, from).len() > 0,
        rejoined(pieces_from(s, pat, from), pat) == s.subrange(from, s.len() as int),
    decreases s.len() - from,
{
    lemma_first_occurrence(s, pat, from);
    match first_occurrence(s, pat, from) {
        Some(i) => {
            lemma_pieces_from_rejoined(s, pat, i + pat.len());
            let rest = pieces_from(s, pat, i + pat.len());
            let ps = pieces_from(s, pat, from);
            assert(ps == seq![s.subrange(from, i)] + rest);
            assert(ps.drop_first() =~= rest);
            assert(s.subrange(from, s.len() as int) =~= s.subrange(from, i) + pat + s.subrange(
                i + pat.len(),
                s.len() as int,
            ));
        },
        None => {},
    }
}

/// Splitting a text at a pattern loses nothing: the pieces, with the pattern
/// put back between each two, are the text again.
pub proof fn law_split_rejoins(s: Seq<char>, pat: Seq<char>)
    requires
        pat.len() > 0,
    ensures
        rejoined(split(s, pat), pat) == s,
{
    lemma_pieces_from_rejoined(s, pat, 0);
    assert(s.subrange(0, s.len() as int) =~= s);
}

} // verus!

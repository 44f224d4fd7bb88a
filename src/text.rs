//! Character-level helpers over `str`, stated over `Seq<char>`.

use vstd::prelude::*;

verus! {

/// `p` is a prefix of `s`.
pub open spec fn starts_with(s: Seq<char>, p: Seq<char>) -> bool {
    p.len() <= s.len() && s.subrange(0, p.len() as int) == p
}

/// `pat` occurs in `s` at position `start`.
pub open spec fn occurs_at(s: Seq<char>, start: int, pat: Seq<char>) -> bool {
    start + pat.len() <= s.len() && s.subrange(start, start + pat.len()) == pat
}

/// The result of `str::trim` on the given characters.
pub uninterp spec fn trimmed(s: Seq<char>) -> Seq<char>;

/// Relies on `str::trim`: leading and trailing white space removed, as a
/// function of the characters alone.
#[verifier::external_body]
pub(crate) fn trim(s: &str) -> (r: String)
    ensures
        r@ == trimmed(s@),
{
    s.trim().to_string()
}

/// Whether `pat` occurs in `s` at character position `start`.
pub fn has_at(s: &str, start: usize, pat: &str) -> (r: bool)
    requires
        start <= s@.len(),
    ensures
        r == occurs_at(s@, start as int, pat@),
{
    let n = s.unicode_len();
    let m = pat.unicode_len();
    if m > n - start {
        return false;
    }
    let mut k: usize = 0;
    while k < m
        invariant
            n == s@.len(),
            m == pat@.len(),
            start + m <= n,
            k <= m,
            forall|j: int| 0 <= j < k ==> s@[start + j] == pat@[j],
        decreases m - k,
    {
        if s.get_char(start + k) != pat.get_char(k) {
            assert(s@.subrange(start as int, start + m)[k as int] != pat@[k as int]);
            return false;
        }
        k = k + 1;
    }
    assert(s@.subrange(start as int, start + m) =~= pat@);
    true
}

/// The pieces of `s` between commas, as `str::split(',')` yields them:
/// one more piece than there are commas.
pub open spec fn split_fields(s: Seq<char>) -> Seq<Seq<char>>
    decreases s.len(),
{
    if s.len() == 0 {
        seq![Seq::<char>::empty()]
    } else if s.last() == ',' {
        split_fields(s.drop_last()).push(Seq::<char>::empty())
    } else {
        let r = split_fields(s.drop_last());
        r.update(r.len() - 1, r.last().push(s.last()))
    }
}

/// `split_fields` never yields an empty list.
pub proof fn lemma_split_fields_nonempty(s: Seq<char>)
    ensures
        split_fields(s).len() >= 1,
    decreases s.len(),
{
    if s.len() > 0 {
        lemma_split_fields_nonempty(s.drop_last());
    }
}

/// The views of a list of strings.
pub open spec fn views(v: Seq<String>) -> Seq<Seq<char>> {
    v.map_values(|t: String| t@)
}

/// Splits `s` at every comma.
pub fn split_commas(s: &str) -> (r: Vec<String>)
    ensures
        views(r@) == split_fields(s@),
{
    let n = s.unicode_len();
    let mut out: Vec<String> = Vec::new();
    let mut start: usize = 0;
    let mut i: usize = 0;
    proof {
        assert(s@.subrange(0, 0) =~= Seq::<char>::empty());
        assert(views(out@).push(s@.subrange(0, 0)) =~= split_fields(s@.subrange(0, 0)));
    }
    while i < n
        invariant
            n == s@.len(),
            start <= i <= n,
            views(out@).push(s@.subrange(start as int, i as int)) == split_fields(
                s@.subrange(0, i as int),
            ),
        decreases n - i,
    {
        let c = s.get_char(i);
        let ghost before = s@.subrange(0, i as int);
        let ghost cur = s@.subrange(start as int, i as int);
        let ghost after = s@.subrange(0, i + 1);
        proof {
            lemma_split_fields_nonempty(before);
            assert(after.drop_last() =~= before);
            assert(after.last() == c);
        }
        if c == ',' {
            let piece = String::from_str(s.substring_char(start, i));
            let ghost prev = out@;
            out.push(piece);
            start = i + 1;
            proof {
                assert(views(out@) =~= views(prev).push(cur));
                assert(s@.subrange(start as int, i + 1) =~= Seq::<char>::empty());
            }
        } else {
            proof {
                assert(s@.subrange(start as int, i + 1) =~= cur.push(c));
                assert(views(out@).push(cur.push(c)) =~= split_fields(before).update(
                    split_fields(before).len() - 1,
                    cur.push(c),
                ));
            }
        }
        i = i + 1;
    }
    let last = String::from_str(s.substring_char(start, n));
    let ghost prev = out@;
    out.push(last);
    proof {
        assert(s@.subrange(0, n as int) =~= s@);
        assert(views(out@) =~= views(prev).push(last@));
    }
    out
}

} // verus!

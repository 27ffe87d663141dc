use vstd::prelude::*;
use vstd::std_specs::iter::IteratorSpec;

verus! {

/// What `str::to_lowercase` makes of a text.
pub uninterp spec fn lower_of(s: Seq<char>) -> Seq<char>;

/// Relies on `str::to_lowercase`: the lowercase form of a text, which depends
/// on its characters alone.
#[verifier::external_body]
pub(crate) fn lowercase(s: &str) -> (r: String)
    ensures
        r@ == lower_of(s@),
{
    s.to_lowercase()
}

/// `needle` occurs in `hay` as a contiguous run.
pub open spec fn has_substring(hay: Seq<char>, needle: Seq<char>) -> bool {
    exists|i: int| 0 <= i <= hay.len() - needle.len() && #[trigger] hay.subrange(i, i + needle.len()) == needle
}

/// The characters of a text.
pub fn chars_of(s: &str) -> (r: Vec<char>)
    ensures
        r@ == s@,
{
    let mut out: Vec<char> = Vec::new();
    let mut it = s.chars();
    loop
        invariant
            out@ + it.remaining() == s@,
            it.obeys_prophetic_iter_laws(),
            it.decrease() is Some,
        ensures
            out@ == s@,
        decreases it.decrease()->0,
    {
        match it.next() {
            Some(c) => {
                out.push(c);
            },
            None => {
                assert(it.remaining().len() == 0);
                assert(out@ =~= s@);
                break ;
            },
        }
    }
    out
}

/// Whether `needle` occurs in `hay`.
pub fn contains_chars(hay: &Vec<char>, needle: &Vec<char>) -> (r: bool)
    ensures
        r == has_substring(hay@, needle@),
{
    if needle.len() > hay.len() {
        return false;
    }
    let last = hay.len() - needle.len();
    let mut i: usize = 0;
    while i <= last
        invariant
            needle@.len() <= hay@.len() <= usize::MAX,
            last == hay@.len() - needle@.len(),
            0 <= i <= last,
            forall|p: int| 0 <= p < i ==> #[trigger] hay@.subrange(p, p + needle@.len()) != needle@,
        decreases last + 1 - i,
    {
        let mut j: usize = 0;
        let mut same = true;
        while j < needle.len()
            invariant
                0 <= j <= needle@.len(),
                i <= last,
                needle@.len() <= hay@.len() <= usize::MAX,
                last == hay@.len() - needle@.len(),
                same == forall|q: int| 0 <= q < j ==> hay@[i + q] == needle@[q],
            decreases needle@.len() - j,
        {
            assert(i + j < hay@.len());
            if hay[i + j] != needle[j] {
                same = false;
            }
            j = j + 1;
        }
        if same {
            assert(hay@.subrange(i as int, i + needle@.len()) =~= needle@);
            return true;
        }
        proof {
            let p = i as int;
            if hay@.subrange(p, p + needle@.len()) == needle@ {
                assert forall|q: int| 0 <= q < needle@.len() implies hay@[p + q] == needle@[q] by {
                    assert(hay@.subrange(p, p + needle@.len())[q] == hay@[p + q]);
                }
            }
        }
        if i == last {
            return false;
        }
        i = i + 1;
    }
    false
}

/// Whether the lowercased query occurs in the lowercased text: the matching
/// step of a case-insensitive search, on texts already folded.
pub fn matches_folded(folded_text: &str, folded_query: &str) -> (r: bool)
    ensures
        r == has_substring(folded_text@, folded_query@),
{
    contains_chars(&chars_of(folded_text), &chars_of(folded_query))
}

/// Whether `query` occurs in `text`, ignoring case.
pub fn contains_ignoring_case(text: &str, query: &str) -> (r: bool)
    ensures
        r == has_substring(lower_of(text@), lower_of(query@)),
{
    let t = lowercase(text);
    let q = lowercase(query);
    matches_folded(t.as_str(), q.as_str())
}

} // verus!

use vstd::prelude::*;
use vstd::string::*;

verus! {

/// Index of the last `'\\'` in `p`, or `-1` where `p` holds none.
pub open spec fn last_separator(p: Seq<char>) -> int
    decreases p.len(),
{
    if p.len() == 0 {
        -1
    } else if p.last() == '\\' {
        p.len() - 1
    } else {
        last_separator(p.drop_last())
    }
}

/// The segment of `p` after its last separator; all of `p` where it has none.
pub open spec fn file_name_of(p: Seq<char>) -> Seq<char> {
    p.subrange(last_separator(p) + 1, p.len() as int)
}

/// The part of `p` before its last separator; all of `p` where it has none.
pub open spec fn directory_of(p: Seq<char>) -> Seq<char> {
    if last_separator(p) < 0 {
        p
    } else {
        p.subrange(0, last_separator(p))
    }
}

proof fn lemma_last_separator_bounds(p: Seq<char>)
    ensures
        -1 <= last_separator(p) < p.len(),
        last_separator(p) >= 0 ==> p[last_separator(p)] == '\\',
    decreases p.len(),
{
    if p.len() > 0 && p.last() != '\\' {
        lemma_last_separator_bounds(p.drop_last());
    }
}

/// Where no separator stands at or after index `i`, the last separator of `p`
/// is the last one of its first `i` characters.
proof fn lemma_last_separator_prefix(p: Seq<char>, i: int)
    requires
        0 <= i <= p.len(),
        forall|j: int| i <= j < p.len() ==> p[j] != '\\',
    ensures
        last_separator(p) == last_separator(p.subrange(0, i)),
    decreases p.len() - i,
{
    if i < p.len() {
        assert(p.drop_last() =~= p.subrange(0, p.len() - 1));
        lemma_last_separator_prefix(p.drop_last(), i);
        assert(p.drop_last().subrange(0, i) =~= p.subrange(0, i));
    } else {
        assert(p.subrange(0, i) =~= p);
    }
}

/// Finds the index of the last separator in `s`.
fn find_last_separator(s: &str) -> (r: Option<usize>)
    ensures
        match r {
            Some(i) => i as int == last_separator(s@),
            None => last_separator(s@) == -1,
        },
{
    let n = s.unicode_len();
    let mut i: usize = n;
    while i > 0
        invariant
            i <= n,
            n == s@.len(),
            forall|j: int| i <= j < n ==> s@[j] != '\\',
        decreases i,
    {
        let c = s.get_char(i - 1);
        if c == '\\' {
            proof {
                lemma_last_separator_prefix(s@, i as int);
                let q = s@.subrange(0, i as int);
                assert(q.last() == '\\');
            }
            return Some(i - 1);
        }
        i = i - 1;
    }
    proof {
        lemma_last_separator_prefix(s@, 0);
        assert(s@.subrange(0, 0).len() == 0);
    }
    None
}

/// The file name of an executable path: what follows its last `'\\'`.
pub fn file_name_from_path(path: &str) -> (r: String)
    ensures
        r@ == file_name_of(path@),
{
    proof {
        lemma_last_separator_bounds(path@);
    }
    let n = path.unicode_len();
    match find_last_separator(path) {
        Some(i) => path.substring_char(i + 1, n).to_owned(),
        None => path.substring_char(0, n).to_owned(),
    }
}

/// The directory of an executable path: what precedes its last `'\\'`.
pub fn get_directory_from_path(path: &str) -> (r: String)
    ensures
        r@ == directory_of(path@),
{
    proof {
        lemma_last_separator_bounds(path@);
    }
    let n = path.unicode_len();
    match find_last_separator(path) {
        Some(i) => path.substring_char(0, i).to_owned(),
        None => {
            let r = path.substring_char(0, n).to_owned();
            assert(r@ =~= path@);
            r
        },
    }
}

/// What `str::to_lowercase` makes of a string: it depends on the characters alone.
pub uninterp spec fn lower_of(s: Seq<char>) -> Seq<char>;

/// Relies on `str::to_lowercase`: the lower-case form of `s`, character by character
/// under Unicode's case mapping.
#[verifier::external_body]
pub(crate) fn lowercase(s: &str) -> (r: String)
    ensures
        r@ == lower_of(s@),
{
    s.to_lowercase()
}

/// Whether `path` lies under `dir`, compared without regard to case.
pub open spec fn in_directory(path: Seq<char>, dir: Seq<char>) -> bool {
    lower_of(dir).is_prefix_of(lower_of(path))
}

/// Whether `prefix` is a prefix of `s`, character by character.
pub fn starts_with_chars(s: &str, prefix: &str) -> (r: bool)
    ensures
        r == prefix@.is_prefix_of(s@),
{
    let n = s.unicode_len();
    let m = prefix.unicode_len();
    if m > n {
        return false;
    }
    let mut i: usize = 0;
    while i < m
        invariant
            i <= m <= n,
            n == s@.len(),
            m == prefix@.len(),
            forall|j: int| 0 <= j < i ==> prefix@[j] == s@[j],
        decreases m - i,
    {
        if s.get_char(i) != prefix.get_char(i) {
            return false;
        }
        i = i + 1;
    }
    true
}

} // verus!

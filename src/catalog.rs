use vstd::prelude::*;
use vstd::seq_lib::*;

use crate::path::{lower_of, lowercase};

verus! {

broadcast use group_to_multiset_ensures;

/// An installed application, as the start-menu listing names it.
pub struct AppEntry {
    pub name: String,
    pub aumid: String,
}

impl View for AppEntry {
    type V = (Seq<char>, Seq<char>);

    open spec fn view(&self) -> (Seq<char>, Seq<char>) {
        (self.name@, self.aumid@)
    }
}

/// Whether `c` has Unicode's White_Space property.
pub open spec fn is_white_space(c: char) -> bool {
    let u = c as u32;
    (0x9 <= u <= 0xD) || u == 0x20 || u == 0x85 || u == 0xA0 || u == 0x1680 || (0x2000 <= u
        <= 0x200A) || u == 0x2028 || u == 0x2029 || u == 0x202F || u == 0x205F || u == 0x3000
}

/// How many white-space characters `s` begins with.
pub open spec fn leading_white(s: Seq<char>) -> nat
    decreases s.len(),
{
    if s.len() > 0 && is_white_space(s[0]) {
        1 + leading_white(s.drop_first())
    } else {
        0
    }
}

/// How many white-space characters `s` ends with.
pub open spec fn trailing_white(s: Seq<char>) -> nat
    decreases s.len(),
{
    if s.len() > 0 && is_white_space(s.last()) {
        1 + trailing_white(s.drop_last())
    } else {
        0
    }
}

/// `s` without its leading and trailing white space.
pub open spec fn trim_of(s: Seq<char>) -> Seq<char> {
    let t = s.skip(leading_white(s) as int);
    t.take(t.len() - trailing_white(t))
}

/// Relies on `str::lines`: splits a text at each `\n`, dropping a `\r` just
/// before it; a final `\n` is optional and yields no empty last line.
#[verifier::external_body]
fn split_lines(s: &str) -> (r: Vec<String>)
    ensures
        r@.map_values(|l: String| l@) == lines_of(s@),
{
    s.lines().map(|l| l.to_string()).collect()
}

/// Relies on `str::trim`: removes the leading and trailing characters for which
/// `char::is_whitespace` holds, that is those with the White_Space property.
#[verifier::external_body]
fn trim(s: &str) -> (r: String)
    ensures
        r@ == trim_of(s@),
{
    s.trim().to_string()
}

/// Index of the first `c` in `s`, or `-1` where `s` holds none.
pub open spec fn first_index(s: Seq<char>, c: char) -> int
    decreases s.len(),
{
    if s.len() == 0 {
        -1
    } else if first_index(s.drop_last(), c) >= 0 {
        first_index(s.drop_last(), c)
    } else if s.last() == c {
        s.len() - 1
    } else {
        -1
    }
}

/// Index of the first tab in `s`, or `-1` where `s` holds none.
pub open spec fn first_tab(s: Seq<char>) -> int {
    first_index(s, '\t')
}

/// A line without the one carriage return that may end it.
pub open spec fn without_cr(line: Seq<char>) -> Seq<char> {
    if line.len() > 0 && line.last() == '\r' {
        line.drop_last()
    } else {
        line
    }
}

/// The lines of a text: the runs between newlines, each without a carriage
/// return just before its newline; a final newline starts no further line.
pub open spec fn lines_of(s: Seq<char>) -> Seq<Seq<char>>
    decreases s.len(),
{
    let k = first_index(s, '\n');
    if s.len() == 0 {
        Seq::empty()
    } else if k < 0 || k >= s.len() {
        seq![s]
    } else {
        seq![without_cr(s.take(k))] + lines_of(s.skip(k + 1))
    }
}

/// The name and AUMID of a listing line `name<TAB>aumid`; none for a line with
/// no tab or with an empty AUMID.
pub open spec fn entry_of_line(line: Seq<char>) -> Option<(Seq<char>, Seq<char>)> {
    let t = trim_of(line);
    let k = first_tab(t);
    if k < 0 {
        None
    } else {
        let aumid = trim_of(t.subrange(k + 1, t.len() as int));
        if aumid.len() == 0 {
            None
        } else {
            Some((trim_of(t.subrange(0, k)), aumid))
        }
    }
}

/// Whether `t` occurs in `s` as a contiguous run.
pub open spec fn contains_seq(s: Seq<char>, t: Seq<char>) -> bool {
    exists|i: int| 0 <= i <= s.len() - t.len() && #[trigger] s.subrange(i, i + t.len()) == t
}

/// Whether a name passes the search: there is none, or it holds the term, ignoring case.
pub open spec fn admits(name: Seq<char>, term: Option<Seq<char>>) -> bool {
    match term {
        Some(t) => contains_seq(lower_of(name), lower_of(t)),
        None => true,
    }
}

/// The applications that the listing lines name and the search admits, in order.
pub open spec fn listed_apps(lines: Seq<Seq<char>>, term: Option<Seq<char>>) -> Seq<(Seq<char>, Seq<char>)>
    decreases lines.len(),
{
    if lines.len() == 0 {
        Seq::empty()
    } else {
        let rest = listed_apps(lines.drop_last(), term);
        match entry_of_line(lines.last()) {
            Some(e) if admits(e.0, term) => rest.push(e),
            _ => rest,
        }
    }
}

/// Lexicographic order on characters by their code points, as `str` orders.
pub open spec fn lex_le(a: Seq<char>, b: Seq<char>) -> bool
    decreases a.len(),
{
    if a.len() == 0 {
        true
    } else if b.len() == 0 {
        false
    } else if a[0] != b[0] {
        (a[0] as u32) < (b[0] as u32)
    } else {
        lex_le(a.drop_first(), b.drop_first())
    }
}

/// The applications of `s` are in order of their names, ignoring case.
pub open spec fn sorted_by_name(s: Seq<(Seq<char>, Seq<char>)>) -> bool {
    forall|i: int, j: int| 0 <= i < j < s.len() ==> lex_le(lower_of(#[trigger] s[i].0), lower_of(#[trigger] s[j].0))
}

/// The entries of `s` whose lower-case name is `k`, in their order in `s`.
pub open spec fn named(s: Seq<(Seq<char>, Seq<char>)>, k: Seq<char>) -> Seq<(Seq<char>, Seq<char>)>
    decreases s.len(),
{
    if s.len() == 0 {
        Seq::empty()
    } else if lower_of(s[0].0) == k {
        seq![s[0]] + named(s.drop_first(), k)
    } else {
        named(s.drop_first(), k)
    }
}

proof fn lemma_named_prepend(e: (Seq<char>, Seq<char>), s: Seq<(Seq<char>, Seq<char>)>, k: Seq<char>)
    ensures
        named(seq![e] + s, k) == if lower_of(e.0) == k { seq![e] + named(s, k) } else { named(s, k) },
{
    assert((seq![e] + s).drop_first() =~= s);
}

proof fn lemma_named_insert(
    s: Seq<(Seq<char>, Seq<char>)>,
    pos: int,
    e: (Seq<char>, Seq<char>),
    k: Seq<char>,
)
    requires
        0 <= pos <= s.len(),
        forall|i: int| 0 <= i < pos ==> lower_of(#[trigger] s[i].0) != lower_of(e.0),
    ensures
        named(s.insert(pos, e), k) == if lower_of(e.0) == k { seq![e] + named(s, k) } else { named(s, k) },
    decreases pos,
{
    if pos == 0 {
        assert(s.insert(0, e) =~= seq![e] + s);
        lemma_named_prepend(e, s, k);
    } else {
        let t = s.drop_first();
        assert forall|i: int| 0 <= i < pos - 1 implies lower_of(#[trigger] t[i].0) != lower_of(e.0) by {
            assert(t[i] == s[i + 1]);
        }
        lemma_named_insert(t, pos - 1, e, k);
        assert(s.insert(pos, e) =~= seq![s[0]] + t.insert(pos - 1, e));
        assert(s =~= seq![s[0]] + t);
        lemma_named_prepend(s[0], t.insert(pos - 1, e), k);
        lemma_named_prepend(s[0], t, k);
        if lower_of(e.0) == k && lower_of(s[0].0) == k {
            assert(false);
        }
    }
}

proof fn lemma_lex_refl(a: Seq<char>)
    ensures
        lex_le(a, a),
    decreases a.len(),
{
    if a.len() > 0 {
        lemma_lex_refl(a.drop_first());
    }
}

proof fn lemma_lex_total(a: Seq<char>, b: Seq<char>)
    ensures
        lex_le(a, b) || lex_le(b, a),
    decreases a.len(),
{
    if a.len() > 0 && b.len() > 0 {
        if a[0] == b[0] {
            lemma_lex_total(a.drop_first(), b.drop_first());
        } else {
            vstd::utf8::char_u32_cast(a[0], a[0] as u32);
            vstd::utf8::char_u32_cast(b[0], b[0] as u32);
        }
    }
}

proof fn lemma_lex_trans(a: Seq<char>, b: Seq<char>, c: Seq<char>)
    requires
        lex_le(a, b),
        lex_le(b, c),
    ensures
        lex_le(a, c),
    decreases a.len(),
{
    if a.len() > 0 && b.len() > 0 && c.len() > 0 && a[0] == b[0] && b[0] == c[0] {
        lemma_lex_trans(a.drop_first(), b.drop_first(), c.drop_first());
    }
}

proof fn lemma_first_index_prefix(s: Seq<char>, c: char, k: int)
    requires
        0 <= k <= s.len(),
        first_index(s.take(k), c) >= 0,
    ensures
        first_index(s, c) == first_index(s.take(k), c),
    decreases s.len() - k,
{
    if k < s.len() {
        assert(s.drop_last().take(k) =~= s.take(k));
        lemma_first_index_prefix(s.drop_last(), c, k);
    } else {
        assert(s.take(k) =~= s);
    }
}

/// Finds the first tab in `s`.
fn find_tab(s: &str) -> (r: Option<usize>)
    ensures
        match r {
            Some(i) => i as int == first_tab(s@) && i < s@.len(),
            None => first_tab(s@) == -1,
        },
{
    let n = s.unicode_len();
    let mut i: usize = 0;
    while i < n
        invariant
            i <= n,
            n == s@.len(),
            first_tab(s@.take(i as int)) == -1,
        decreases n - i,
    {
        assert(s@.take(i + 1).drop_last() =~= s@.take(i as int));
        if s.get_char(i) == '\t' {
            proof {
                lemma_first_index_prefix(s@, '\t', i + 1);
            }
            return Some(i);
        }
        i = i + 1;
    }
    assert(s@.take(n as int) =~= s@);
    None
}

/// Splits `t` at its first tab into what precedes and what follows it; none
/// where `t` holds no tab.
pub fn split_at_tab(t: &str) -> (r: Option<(String, String)>)
    ensures
        first_tab(t@) < 0 <==> r is None,
        match r {
            Some((a, b)) => a@ == t@.subrange(0, first_tab(t@)) && b@ == t@.subrange(
                first_tab(t@) + 1,
                t@.len() as int,
            ),
            None => true,
        },
{
    let n = t.unicode_len();
    match find_tab(t) {
        None => None,
        Some(k) => Some((t.substring_char(0, k).to_owned(), t.substring_char(k + 1, n).to_owned())),
    }
}

/// Reads one listing line `name<TAB>aumid`; none for a line with no tab or an
/// empty AUMID.
pub fn parse_app_line(line: &str) -> (r: Option<AppEntry>)
    ensures
        match r {
            Some(e) => entry_of_line(line@) == Some(e@),
            None => entry_of_line(line@) is None,
        },
{
    let t = trim(line);
    match split_at_tab(t.as_str()) {
        None => None,
        Some((before, after)) => {
            let aumid = trim(after.as_str());
            if aumid.as_str().unicode_len() == 0 {
                None
            } else {
                let name = trim(before.as_str());
                Some(AppEntry { name, aumid })
            }
        },
    }
}

/// Whether `t` occurs in `s` as a contiguous run.
pub fn contains_chars(s: &str, t: &str) -> (r: bool)
    ensures
        r == contains_seq(s@, t@),
{
    let n = s.unicode_len();
    let m = t.unicode_len();
    if m > n {
        return false;
    }
    let mut i: usize = 0;
    while i <= n - m
        invariant
            m <= n,
            n == s@.len(),
            m == t@.len(),
            forall|p: int| 0 <= p < i ==> #[trigger] s@.subrange(p, p + m) != t@,
        decreases n - m + 1 - i,
    {
        let mut j: usize = 0;
        let mut same = true;
        while j < m
            invariant
                j <= m,
                i + m <= n,
                n == s@.len(),
                m == t@.len(),
                same ==> forall|q: int| 0 <= q < j ==> s@[i + q] == t@[q],
                !same ==> s@.subrange(i as int, i + m) != t@,
            decreases m - j,
        {
            if same && s.get_char(i + j) != t.get_char(j) {
                same = false;
                assert(s@.subrange(i as int, i + m)[j as int] != t@[j as int]);
            }
            j = j + 1;
        }
        if same {
            assert(s@.subrange(i as int, i + m) =~= t@);
            return true;
        }
        if i == n - m {
            return false;
        }
        i = i + 1;
    }
    false
}

/// The search term as characters.
pub open spec fn term_view(term: Option<&str>) -> Option<Seq<char>> {
    match term {
        Some(t) => Some(t@),
        None => None,
    }
}

/// Whether the search admits an application name, ignoring case.
pub fn name_admits(name: &str, term: Option<&str>) -> (r: bool)
    ensures
        r == admits(name@, term_view(term)),
{
    match term {
        None => true,
        Some(t) => {
            let lower_name = lowercase(name);
            let lower_term = lowercase(t);
            contains_chars(lower_name.as_str(), lower_term.as_str())
        },
    }
}

/// The views of a sequence of entries.
pub open spec fn views(s: Seq<AppEntry>) -> Seq<(Seq<char>, Seq<char>)> {
    s.map_values(|e: AppEntry| e@)
}

/// The applications named by the lines of a listing and admitted by the search,
/// in listing order.
pub fn collect_apps(output: &str, term: Option<&str>) -> (r: Vec<AppEntry>)
    ensures
        views(r@) == listed_apps(lines_of(output@), term_view(term)),
{
    let lines = split_lines(output);
    let ghost ls = lines_of(output@);
    let mut apps: Vec<AppEntry> = Vec::new();
    let mut i: usize = 0;
    while i < lines.len()
        invariant
            i <= lines@.len(),
            lines@.map_values(|l: String| l@) == ls,
            views(apps@) == listed_apps(ls.take(i as int), term_view(term)),
        decreases lines@.len() - i,
    {
        proof {
            assert(ls.take(i + 1).drop_last() =~= ls.take(i as int));
            assert(ls.take(i + 1).last() == lines@[i as int]@);
        }
        match parse_app_line(lines[i].as_str()) {
            Some(e) => {
                if name_admits(e.name.as_str(), term) {
                    apps.push(e);
                    assert(views(apps@) =~= listed_apps(ls.take(i + 1), term_view(term)));
                }
            },
            None => {},
        }
        i = i + 1;
    }
    assert(ls.take(lines@.len() as int) =~= ls);
    apps
}

/// Whether `a` comes no later than `b`, by code points.
pub fn lex_le_exec(a: &str, b: &str) -> (r: bool)
    ensures
        r == lex_le(a@, b@),
{
    let n = a.unicode_len();
    let m = b.unicode_len();
    let mut i: usize = 0;
    assert(a@.skip(0) =~= a@ && b@.skip(0) =~= b@);
    while i < n && i < m
        invariant
            i <= n,
            i <= m,
            n == a@.len(),
            m == b@.len(),
            lex_le(a@, b@) == lex_le(a@.skip(i as int), b@.skip(i as int)),
        decreases n - i,
    {
        let c = a.get_char(i);
        let d = b.get_char(i);
        if c != d {
            return (c as u32) < (d as u32);
        }
        assert(a@.skip(i as int).drop_first() =~= a@.skip(i + 1));
        assert(b@.skip(i as int).drop_first() =~= b@.skip(i + 1));
        i = i + 1;
    }
    i == n
}

/// Orders applications by name, ignoring case; applications of equal names
/// keep their order.
pub fn sort_apps(apps: Vec<AppEntry>) -> (r: Vec<AppEntry>)
    ensures
        sorted_by_name(views(r@)),
        views(r@).to_multiset() == views(apps@).to_multiset(),
        forall|k: Seq<char>| #[trigger] named(views(r@), k) == named(views(apps@), k),
{
    let ghost va = views(apps@);
    let mut rest = apps;
    let mut out: Vec<AppEntry> = Vec::new();
    let mut keys: Vec<String> = Vec::new();
    assert(views(out@) =~= Seq::empty());
    while rest.len() > 0
        invariant
            keys@.len() == out@.len(),
            forall|i: int| 0 <= i < keys@.len() ==> #[trigger] keys@[i]@ == lower_of(out@[i].name@),
            sorted_by_name(views(out@)),
            views(out@).to_multiset().add(views(rest@).to_multiset()) == views(apps@).to_multiset(),
            va == views(apps@),
            rest@.len() <= apps@.len(),
            rest@ == apps@.take(rest@.len() as int),
            forall|k: Seq<char>| #[trigger] named(views(out@), k) == named(va.skip(rest@.len() as int), k),
        decreases rest@.len(),
    {
        let ghost before = rest@;
        let e = rest.pop().unwrap();
        assert(views(before) =~= views(rest@).push(e@));
        let k = lowercase(e.name.as_str());
        let ghost m = rest@.len() as int;
        proof {
            assert(before == apps@.take(m + 1));
            assert(e == before[m]);
            assert(e == apps@[m]);
            assert(rest@ =~= apps@.take(m));
            assert(va.skip(m) =~= seq![e@] + va.skip(m + 1));
        }
        let mut pos: usize = 0;
        while pos < keys.len() && !lex_le_exec(k.as_str(), keys[pos].as_str())
            invariant
                pos <= keys@.len(),
                keys@.len() == out@.len(),
                forall|i: int| 0 <= i < pos ==> !lex_le(k@, #[trigger] keys@[i]@),
            decreases keys@.len() - pos,
        {
            pos = pos + 1;
        }
        proof {
            let vs = views(out@);
            assert forall|i: int| 0 <= i < pos implies lex_le(lower_of(#[trigger] vs[i].0), k@) by {
                assert(keys@[i]@ == lower_of(out@[i].name@));
                lemma_lex_total(k@, keys@[i]@);
            }
            if pos < keys@.len() {
                assert(keys@[pos as int]@ == lower_of(out@[pos as int].name@));
                assert forall|i: int| pos <= i < vs.len() implies lex_le(k@, lower_of(#[trigger] vs[i].0)) by {
                    if i > pos {
                        assert(lex_le(lower_of(vs[pos as int].0), lower_of(vs[i].0)));
                        lemma_lex_trans(k@, lower_of(vs[pos as int].0), lower_of(vs[i].0));
                    }
                }
            }
        }
        let ghost old_out = out@;
        let ghost old_keys = keys@;
        out.insert(pos, e);
        keys.insert(pos, k);
        proof {
            let vs = views(old_out);
            let ws = views(out@);
            assert(ws =~= vs.insert(pos as int, e@));
            assert(keys@ == old_keys.insert(pos as int, k));
            assert forall|i: int, j: int| 0 <= i < j < ws.len() implies lex_le(
                lower_of(#[trigger] ws[i].0),
                lower_of(#[trigger] ws[j].0),
            ) by {
                if j < pos {
                } else if j == pos {
                } else if i < pos {
                    assert(lex_le(lower_of(vs[i].0), k@));
                    assert(lex_le(k@, lower_of(vs[j - 1].0)));
                    lemma_lex_trans(lower_of(vs[i].0), k@, lower_of(vs[j - 1].0));
                } else if i == pos {
                } else {
                    assert(ws[i] == vs[i - 1] && ws[j] == vs[j - 1]);
                }
            }
            assert forall|i: int| 0 <= i < keys@.len() implies #[trigger] keys@[i]@ == lower_of(out@[i].name@) by {
                if i < pos {
                    assert(keys@[i] == old_keys[i] && out@[i] == old_out[i]);
                } else if i > pos {
                    assert(keys@[i] == old_keys[i - 1] && out@[i] == old_out[i - 1]);
                }
            }
            assert forall|i: int| 0 <= i < pos implies lower_of(#[trigger] vs[i].0) != lower_of(e@.0) by {
                assert(keys@[i]@ == lower_of(out@[i].name@));
                if lower_of(vs[i].0) == lower_of(e@.0) {
                    lemma_lex_refl(k@);
                }
            }
            assert forall|key: Seq<char>| #[trigger] named(ws, key) == named(va.skip(m), key) by {
                lemma_named_insert(vs, pos as int, e@, key);
                lemma_named_prepend(e@, va.skip(m + 1), key);
            }
            assert(ws.to_multiset() == vs.to_multiset().insert(e@));
            assert(views(before).to_multiset() == views(rest@).to_multiset().insert(e@));
            assert(ws.to_multiset().add(views(rest@).to_multiset()) =~= vs.to_multiset().add(views(before).to_multiset()));
        }
    }
    assert(views(rest@) =~= Seq::empty());
    assert(va.skip(0) =~= va);
    assert(views(out@).to_multiset().add(views(rest@).to_multiset()) =~= views(out@).to_multiset());
    out
}

/// The applications that a start-menu listing names, admitted by the search and
/// ordered by name, ignoring case.
pub fn list_start_apps(output: &str, term: Option<&str>) -> (r: Vec<AppEntry>)
    ensures
        sorted_by_name(views(r@)),
        views(r@).to_multiset() == listed_apps(lines_of(output@), term_view(term)).to_multiset(),
        forall|k: Seq<char>|
            #[trigger] named(views(r@), k) == named(listed_apps(lines_of(output@), term_view(term)), k),
{
    sort_apps(collect_apps(output, term))
}

} // verus!

//! Rules on path strings: display names, kinds and exclusion prefixes.
use vstd::prelude::*;
use vstd::std_specs::iter::IteratorSpec;

verus! {

broadcast use vstd::string::group_string_axioms;

/// The characters of `s`, in order.
pub fn chars_of(s: &str) -> (r: Vec<char>)
    ensures
        r@ == s@,
{
    let mut it = s.chars();
    let mut out: Vec<char> = Vec::new();
    loop
        invariant
            it.obeys_prophetic_iter_laws(),
            it.decrease() is Some,
            out@ + it.remaining() == s@,
        ensures
            out@ == s@,
        decreases it.decrease()->0,
    {
        match it.next() {
            Some(c) => {
                out.push(c);
            },
            None => {
                assert(out@ + it.remaining() =~= out@);
                break;
            },
        }
    }
    out
}


/// The text of each string of a list.
pub open spec fn texts(v: Seq<String>) -> Seq<Seq<char>> {
    v.map_values(|s: String| s@)
}

/// The part of `s` after its last `c`; all of `s` where `c` does not occur.
pub open spec fn after_last(s: Seq<char>, c: char) -> Seq<char>
    decreases s.len(),
{
    if s.len() == 0 {
        s
    } else if s.last() == c {
        Seq::empty()
    } else {
        after_last(s.drop_last(), c).push(s.last())
    }
}

/// `s` without the `/` characters that end it.
pub open spec fn trim_end_slashes(s: Seq<char>) -> Seq<char>
    decreases s.len(),
{
    if s.len() > 0 && s.last() == '/' {
        trim_end_slashes(s.drop_last())
    } else {
        s
    }
}

/// The display name of a path: its last non-empty `/`-separated segment,
/// empty where it has none.
pub open spec fn display_name(p: Seq<char>) -> Seq<char> {
    after_last(trim_end_slashes(p), '/')
}

/// The extension of a name: what follows its last `.`, where the name holds a
/// `.` and something follows it.
pub open spec fn extension(name: Seq<char>) -> Option<Seq<char>> {
    let t = after_last(name, '.');
    if 0 < t.len() < name.len() {
        Some(t)
    } else {
        None
    }
}

/// Whether some excluded prefix starts the path.
pub open spec fn excluded_by(path: Seq<char>, excludes: Seq<Seq<char>>) -> bool {
    exists|i: int| 0 <= i < excludes.len() && #[trigger] excludes[i].is_prefix_of(path)
}

proof fn lemma_after_last_step(s: Seq<char>, k: int, c: char)
    requires
        0 < k <= s.len(),
        s[k - 1] != c,
    ensures
        after_last(s.subrange(0, k), c) == after_last(s.subrange(0, k - 1), c).push(s[k - 1]),
{
    assert(s.subrange(0, k).drop_last() =~= s.subrange(0, k - 1));
}

proof fn lemma_trim_step(s: Seq<char>, k: int)
    requires
        0 < k <= s.len(),
        s[k - 1] == '/',
    ensures
        trim_end_slashes(s.subrange(0, k)) == trim_end_slashes(s.subrange(0, k - 1)),
{
    assert(s.subrange(0, k).drop_last() =~= s.subrange(0, k - 1));
}

/// Index `start` such that `cs[start..end]` is what follows the last `c`
/// before `end`.
fn last_run_start(cs: &Vec<char>, end: usize, c: char) -> (start: usize)
    requires
        end <= cs@.len(),
    ensures
        start <= end,
        after_last(cs@.subrange(0, end as int), c) == cs@.subrange(start as int, end as int),
{
    let mut start = end;
    while start > 0 && cs[start - 1] != c
        invariant
            start <= end <= cs@.len(),
            after_last(cs@.subrange(0, end as int), c) == after_last(
                cs@.subrange(0, start as int),
                c,
            ) + cs@.subrange(start as int, end as int),
        decreases start,
    {
        proof {
            lemma_after_last_step(cs@, start as int, c);
            assert(after_last(cs@.subrange(0, start as int - 1), c).push(cs@[start - 1])
                + cs@.subrange(start as int, end as int) =~= after_last(
                cs@.subrange(0, start as int - 1),
                c,
            ) + cs@.subrange(start - 1, end as int));
        }
        start = start - 1;
    }
    proof {
        if start > 0 {
            assert(cs@.subrange(0, start as int).last() == c);
        }
        assert(after_last(cs@.subrange(0, start as int), c) =~= Seq::empty());
        assert(Seq::<char>::empty() + cs@.subrange(start as int, end as int) =~= cs@.subrange(
            start as int,
            end as int,
        ));
    }
    start
}

/// Index `end` such that `cs[..end]` is `cs` without its trailing `/`s.
fn trimmed_end(cs: &Vec<char>) -> (end: usize)
    ensures
        end <= cs@.len(),
        trim_end_slashes(cs@) == cs@.subrange(0, end as int),
{
    let mut end = cs.len();
    assert(cs@.subrange(0, end as int) =~= cs@);
    while end > 0 && cs[end - 1] == '/'
        invariant
            end <= cs@.len(),
            trim_end_slashes(cs@) == trim_end_slashes(cs@.subrange(0, end as int)),
        decreases end,
    {
        proof {
            lemma_trim_step(cs@, end as int);
        }
        end = end - 1;
    }
    end
}

/// The display name of a path: its last non-empty `/`-separated segment.
pub fn display_name_of(path: &str) -> (name: String)
    ensures
        name@ == display_name(path@),
{
    let cs = chars_of(path);
    let end = trimmed_end(&cs);
    let start = last_run_start(&cs, end, '/');
    proof {
        assert(cs@.subrange(0, end as int).subrange(0, end as int) =~= cs@.subrange(0, end as int));
    }
    path.substring_char(start, end).to_owned()
}

/// The extension of a name, where it has one (see `extension`).
pub fn extension_of(name: &str) -> (ext: Option<String>)
    ensures
        ext matches Some(e) ==> extension(name@) == Some(e@),
        ext is None ==> extension(name@) is None,
{
    let cs = chars_of(name);
    let n = cs.len();
    let start = last_run_start(&cs, n, '.');
    assert(cs@.subrange(0, n as int) =~= cs@);
    if start < n && 0 < start {
        Some(name.substring_char(start, n).to_owned())
    } else {
        None
    }
}

/// Whether `p` begins `s`.
pub fn starts_with(s: &Vec<char>, p: &Vec<char>) -> (r: bool)
    ensures
        r == p@.is_prefix_of(s@),
{
    if p.len() > s.len() {
        return false;
    }
    let mut i: usize = 0;
    while i < p.len()
        invariant
            p@.len() <= s@.len(),
            i <= p@.len(),
            forall|j: int| 0 <= j < i ==> p@[j] == s@[j],
        decreases p@.len() - i,
    {
        if p[i] != s[i] {
            return false;
        }
        i = i + 1;
    }
    true
}

/// Whether two strings hold the same text.
pub fn same_text(a: &str, b: &str) -> (r: bool)
    ensures
        r == (a@ == b@),
{
    let x = chars_of(a);
    let y = chars_of(b);
    if x.len() != y.len() {
        return false;
    }
    let r = starts_with(&x, &y);
    proof {
        if r {
            assert(x@ =~= y@);
        }
    }
    r
}

/// Whether some prefix of `excludes` starts `path`.
pub fn is_excluded(path: &str, excludes: &Vec<String>) -> (r: bool)
    ensures
        r == excluded_by(path@, texts(excludes@)),
{
    let cs = chars_of(path);
    let mut i: usize = 0;
    while i < excludes.len()
        invariant
            i <= excludes@.len(),
            cs@ == path@,
            forall|j: int| 0 <= j < i ==> !(#[trigger] texts(excludes@)[j]).is_prefix_of(path@),
        decreases excludes@.len() - i,
    {
        let p = chars_of(excludes[i].as_str());
        if starts_with(&cs, &p) {
            assert(texts(excludes@)[i as int].is_prefix_of(path@));
            return true;
        }
        i = i + 1;
    }
    false
}

/// Reads the text of a flag: `"true"` and `"false"` give the matching value,
/// any other text gives `None`.
pub fn string_to_bool(s: String) -> (r: Option<bool>)
    ensures
        r == (if s@ == "true"@ {
            Some(true)
        } else if s@ == "false"@ {
            Some(false)
        } else {
            None
        }),
{
    if same_text(s.as_str(), "true") {
        Some(true)
    } else if same_text(s.as_str(), "false") {
        Some(false)
    } else {
        None
    }
}

} // verus!

use vstd::prelude::*;
use crate::text::{trim, trimmed};

verus! {

/// `s` without its leading `c` characters.
pub open spec fn strip_lead(s: Seq<char>, c: char) -> Seq<char>
    decreases s.len(),
{
    if s.len() > 0 && s[0] == c {
        strip_lead(s.drop_first(), c)
    } else {
        s
    }
}

/// `s` without its trailing `c` characters.
pub open spec fn strip_trail(s: Seq<char>, c: char) -> Seq<char>
    decreases s.len(),
{
    if s.len() > 0 && s.last() == c {
        strip_trail(s.drop_last(), c)
    } else {
        s
    }
}

/// Whether `c` separates path components.
pub open spec fn is_separator(c: char) -> bool {
    c == '/' || c == '\\'
}

/// `s` without its trailing path separators.
pub open spec fn strip_separators(s: Seq<char>) -> Seq<char>
    decreases s.len(),
{
    if s.len() > 0 && is_separator(s.last()) {
        strip_separators(s.drop_last())
    } else {
        s
    }
}

/// The position of the first `,` or `;` in `s`, or its length.
pub open spec fn list_end(s: Seq<char>) -> nat
    decreases s.len(),
{
    if s.len() == 0 {
        0
    } else if s[0] == ',' || s[0] == ';' {
        0
    } else {
        1 + list_end(s.drop_first())
    }
}

/// `s` without surrounding double quotes.
pub open spec fn unquoted(s: Seq<char>) -> Seq<char> {
    strip_trail(strip_lead(s, '"'), '"')
}

/// The file named by an icon or command reference: trimmed, unquoted, cut
/// before an icon index or argument list, then trimmed and unquoted again;
/// nothing when blank.
pub open spec fn reference_path(raw: Seq<char>) -> Option<Seq<char>> {
    let t = trimmed(raw);
    let u = unquoted(t);
    let c = trimmed(unquoted(trimmed(u.take(list_end(u) as int))));
    if t.len() == 0 || c.len() == 0 {
        None
    } else {
        Some(c)
    }
}

/// `s` with each doubled backslash, from the left, written once.
pub open spec fn collapsed(s: Seq<char>) -> Seq<char>
    decreases s.len(),
{
    if s.len() >= 2 && s[0] == '\\' && s[1] == '\\' {
        seq!['\\'] + collapsed(s.skip(2))
    } else if s.len() == 0 {
        s
    } else {
        seq![s[0]] + collapsed(s.drop_first())
    }
}

proof fn lemma_strip_lead_step(s: Seq<char>, i: int, c: char)
    requires
        0 <= i < s.len(),
        s[i] == c,
    ensures
        strip_lead(s.subrange(i, s.len() as int), c) == strip_lead(s.subrange(i + 1, s.len() as int), c),
{
    let t = s.subrange(i, s.len() as int);
    assert(t[0] == s[i]);
    assert(t.drop_first() =~= s.subrange(i + 1, s.len() as int));
}

proof fn lemma_strip_trail_step(s: Seq<char>, j: int, c: char)
    requires
        0 < j <= s.len(),
        s[j - 1] == c,
    ensures
        strip_trail(s.subrange(0, j), c) == strip_trail(s.subrange(0, j - 1), c),
{
    let t = s.subrange(0, j);
    assert(t.last() == s[j - 1]);
    assert(t.drop_last() =~= s.subrange(0, j - 1));
}

proof fn lemma_strip_separators_step(s: Seq<char>, j: int)
    requires
        0 < j <= s.len(),
        is_separator(s[j - 1]),
    ensures
        strip_separators(s.subrange(0, j)) == strip_separators(s.subrange(0, j - 1)),
{
    let t = s.subrange(0, j);
    assert(t.last() == s[j - 1]);
    assert(t.drop_last() =~= s.subrange(0, j - 1));
}

fn unquote(s: &str) -> (r: &str)
    ensures
        r@ == unquoted(s@),
{
    let n = s.unicode_len();
    let mut start: usize = 0;
    assert(s@.subrange(0, n as int) =~= s@);
    while start < n && s.get_char(start) == '"'
        invariant
            n == s@.len(),
            start <= n,
            strip_lead(s@, '"') == strip_lead(s@.subrange(start as int, n as int), '"'),
        decreases n - start,
    {
        proof {
            lemma_strip_lead_step(s@, start as int, '"');
        }
        start = start + 1;
    }
    let rest = s.substring_char(start, n);
    let m = rest.unicode_len();
    let mut end: usize = m;
    assert(rest@.subrange(0, m as int) =~= rest@);
    while end > 0 && rest.get_char(end - 1) == '"'
        invariant
            m == rest@.len(),
            end <= m,
            strip_trail(rest@, '"') == strip_trail(rest@.subrange(0, end as int), '"'),
        decreases end,
    {
        proof {
            lemma_strip_trail_step(rest@, end as int, '"');
        }
        end = end - 1;
    }
    rest.substring_char(0, end)
}

fn before_list(s: &str) -> (r: &str)
    ensures
        r@ == s@.take(list_end(s@) as int),
{
    let n = s.unicode_len();
    let mut i: usize = 0;
    assert(s@.subrange(0, n as int) =~= s@);
    while i < n && s.get_char(i) != ',' && s.get_char(i) != ';'
        invariant
            n == s@.len(),
            i <= n,
            list_end(s@) == i + list_end(s@.subrange(i as int, n as int)),
        decreases n - i,
    {
        proof {
            let t = s@.subrange(i as int, n as int);
            assert(t[0] == s@[i as int]);
            assert(t.drop_first() =~= s@.subrange(i + 1, n as int));
        }
        i = i + 1;
    }
    proof {
        let t = s@.subrange(i as int, n as int);
        if t.len() > 0 {
            assert(t[0] == s@[i as int]);
        }
    }
    s.substring_char(0, i)
}

/// The file an icon or command reference names, before environment
/// placeholders are expanded; nothing when it names none.
pub fn reference_executable(raw: &str) -> (r: Option<String>)
    ensures
        r matches Some(p) ==> reference_path(raw@) == Some(p@),
        r is None ==> reference_path(raw@) is None,
{
    let t = trim(raw);
    if t.unicode_len() == 0 {
        return None;
    }
    let c = trim(unquote(trim(before_list(unquote(t)))));
    if c.unicode_len() == 0 {
        return None;
    }
    Some(String::from_str(c))
}

/// Writes each doubled backslash once.
pub fn collapse_backslashes(s: &str) -> (r: String)
    ensures
        r@ == collapsed(s@),
{
    let n = s.unicode_len();
    let mut out = String::new();
    let mut i: usize = 0;
    assert(s@.skip(0) =~= s@);
    assert(out@ + collapsed(s@) =~= collapsed(s@));
    while i < n
        invariant
            n == s@.len(),
            i <= n,
            out@ + collapsed(s@.skip(i as int)) == collapsed(s@),
        decreases n - i,
    {
        let ghost t = s@.skip(i as int);
        let ghost before = out@;
        if i + 1 < n && s.get_char(i) == '\\' && s.get_char(i + 1) == '\\' {
            out.append("\\");
            proof {
                reveal_strlit("\\");
                assert(t[0] == '\\' && t[1] == '\\');
                assert(t.skip(2) =~= s@.skip(i + 2));
                assert(before + collapsed(t) =~= out@ + collapsed(s@.skip(i + 2)));
            }
            i = i + 2;
        } else {
            let one = s.substring_char(i, i + 1);
            out.append(one);
            proof {
                assert(t[0] == s@[i as int]);
                assert(t.drop_first() =~= s@.skip(i + 1));
                assert(one@ =~= seq![t[0]]);
                assert(before + collapsed(t) =~= out@ + collapsed(s@.skip(i + 1)));
            }
            i = i + 1;
        }
    }
    assert(s@.skip(n as int) =~= Seq::<char>::empty());
    assert(out@ + Seq::<char>::empty() =~= out@);
    out
}

/// A folder after expansion, without its trailing separators; nothing when
/// that leaves it empty.
pub fn folder_without_separators(s: &str) -> (r: Option<String>)
    ensures
        r matches Some(p) ==> p@ == strip_separators(s@) && p@.len() > 0,
        r is None <==> strip_separators(s@).len() == 0,
{
    let n = s.unicode_len();
    let mut end: usize = n;
    assert(s@.subrange(0, n as int) =~= s@);
    while end > 0 && (s.get_char(end - 1) == '/' || s.get_char(end - 1) == '\\')
        invariant
            n == s@.len(),
            end <= n,
            strip_separators(s@) == strip_separators(s@.subrange(0, end as int)),
        decreases end,
    {
        proof {
            lemma_strip_separators_step(s@, end as int);
        }
        end = end - 1;
    }
    if end == 0 {
        assert(s@.subrange(0, 0) =~= Seq::<char>::empty());
        return None;
    }
    let r = s.substring_char(0, end);
    assert(r@.last() == s@[end - 1]);
    Some(String::from_str(r))
}

} // verus!
verus! {

/// Whether a path's file name has the extension `exe`, in any case.
pub open spec fn exe_named(s: Seq<char>) -> bool {
    let n = s.len() as int;
    &&& n >= 5
    &&& s[n - 4] == '.'
    &&& !is_separator(s[n - 5])
    &&& (s[n - 3] == 'e' || s[n - 3] == 'E')
    &&& (s[n - 2] == 'x' || s[n - 2] == 'X')
    &&& (s[n - 1] == 'e' || s[n - 1] == 'E')
}

/// The position of the largest executable among files and their sizes; of
/// equally large ones, the last.
pub open spec fn largest_exe(files: Seq<(Seq<char>, u64)>) -> Option<int>
    decreases files.len(),
{
    if files.len() == 0 {
        None
    } else {
        let r = largest_exe(files.drop_last());
        let i = files.len() - 1;
        if exe_named(files[i].0) && (r matches Some(j) ==> files[i].1 >= files[j].1) {
            Some(i)
        } else {
            r
        }
    }
}

/// The views of files and their sizes.
pub open spec fn file_views(v: Seq<(String, u64)>) -> Seq<(Seq<char>, u64)> {
    v.map_values(|f: (String, u64)| (f.0@, f.1))
}

fn is_exe_path(s: &str) -> (r: bool)
    ensures
        r == exe_named(s@),
{
    let n = s.unicode_len();
    if n < 5 {
        return false;
    }
    let dot = s.get_char(n - 4);
    let before = s.get_char(n - 5);
    let a = s.get_char(n - 3);
    let b = s.get_char(n - 2);
    let c = s.get_char(n - 1);
    dot == '.' && before != '/' && before != '\\' && (a == 'e' || a == 'E') && (b == 'x' || b == 'X') && (c
        == 'e' || c == 'E')
}

proof fn lemma_largest_exe_bound(files: Seq<(Seq<char>, u64)>)
    ensures
        largest_exe(files) matches Some(j) ==> 0 <= j < files.len(),
    decreases files.len(),
{
    if files.len() > 0 {
        lemma_largest_exe_bound(files.drop_last());
    }
}

/// The largest `.exe` file among a folder's files and their sizes; of equally
/// large ones, the last.
pub fn pick_largest_exe(files: &Vec<(String, u64)>) -> (r: Option<String>)
    ensures
        r is Some <==> largest_exe(file_views(files@)) is Some,
        r matches Some(p) ==> p@ == file_views(files@)[largest_exe(file_views(files@))->0].0,
{
    let ghost all = file_views(files@);
    let mut best: Option<usize> = None;
    let mut i: usize = 0;
    assert(all.subrange(0, 0) =~= Seq::<(Seq<char>, u64)>::empty());
    while i < files.len()
        invariant
            all == file_views(files@),
            i <= files@.len(),
            largest_exe(all.subrange(0, i as int)) == match best {
                Some(j) => Some(j as int),
                None => None::<int>,
            },
            best matches Some(j) ==> j < i,
        decreases files@.len() - i,
    {
        proof {
            let pre = all.subrange(0, i + 1);
            assert(pre.drop_last() =~= all.subrange(0, i as int));
            assert(pre[i as int] == all[i as int]);
            lemma_largest_exe_bound(pre.drop_last());
            match best {
                Some(j) => {
                    assert(pre[j as int] == all[j as int]);
                },
                None => {},
            }
        }
        let f = &files[i];
        if is_exe_path(f.0.as_str()) {
            let take = match best {
                Some(j) => f.1 >= files[j].1,
                None => true,
            };
            if take {
                best = Some(i);
            }
        }
        i = i + 1;
    }
    assert(all.subrange(0, files@.len() as int) =~= all);
    match best {
        Some(j) => Some(files[j].0.clone()),
        None => None,
    }
}

} // verus!
verus! {

/// The command that starts an executable at sign-in: its path, quoted when it
/// holds a space.
pub open spec fn startup_command(exe: Seq<char>) -> Seq<char> {
    if exe.contains(' ') {
        "\""@ + exe + "\""@
    } else {
        exe
    }
}

/// Writes the command that starts an executable at sign-in.
pub fn startup_command_value(exe: &str) -> (r: String)
    ensures
        r@ == startup_command(exe@),
{
    if crate::text::contains_char(exe, ' ') {
        String::from_str("\"").concat(exe).concat("\"")
    } else {
        String::from_str(exe)
    }
}

} // verus!

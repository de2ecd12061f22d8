use vstd::prelude::*;

verus! {

/// The Unicode `White_Space` property, which `char::is_whitespace` and
/// `str::trim` go by: tab to carriage return, space, next line, no-break
/// space, ogham space mark, the spaces from en quad to hair space, line and
/// paragraph separators, narrow no-break space, medium mathematical space and
/// ideographic space.
pub open spec fn white_space(c: char) -> bool {
    let x = c as int;
    (9 <= x <= 13) || x == 32 || x == 0x85 || x == 0xA0 || x == 0x1680 || (0x2000 <= x <= 0x200A)
        || x == 0x2028 || x == 0x2029 || x == 0x202F || x == 0x205F || x == 0x3000
}

/// The full Unicode lower-case mapping of a string.
pub uninterp spec fn lower_of(s: Seq<char>) -> Seq<char>;

/// Whether a character has the Unicode `White_Space` property.
pub fn is_white(c: char) -> (r: bool)
    ensures
        r == white_space(c),
{
    let x = c as u32;
    (9 <= x && x <= 13) || x == 32 || x == 0x85 || x == 0xA0 || x == 0x1680 || (0x2000 <= x && x
        <= 0x200A) || x == 0x2028 || x == 0x2029 || x == 0x202F || x == 0x205F || x == 0x3000
}

/// Relies on `str::to_lowercase`: the result depends on the characters alone,
/// and the empty string stays empty.
#[verifier::external_body]
pub(crate) fn lowercase(s: &str) -> (r: String)
    ensures
        r@ == lower_of(s@),
        s@.len() == 0 ==> r@.len() == 0,
{
    s.to_lowercase()
}

/// Whether `s` begins with `p`.
pub open spec fn has_prefix(s: Seq<char>, p: Seq<char>) -> bool {
    p.len() <= s.len() && s.subrange(0, p.len() as int) == p
}

/// `s` without its leading white space.
pub open spec fn skip_lead(s: Seq<char>) -> Seq<char>
    decreases s.len(),
{
    if s.len() > 0 && white_space(s[0]) {
        skip_lead(s.drop_first())
    } else {
        s
    }
}

/// `s` without its trailing white space.
pub open spec fn skip_trail(s: Seq<char>) -> Seq<char>
    decreases s.len(),
{
    if s.len() > 0 && white_space(s.last()) {
        skip_trail(s.drop_last())
    } else {
        s
    }
}

/// `s` without leading and trailing white space.
pub open spec fn trimmed(s: Seq<char>) -> Seq<char> {
    skip_trail(skip_lead(s))
}

/// A text is blank when nothing but white space is left after trimming.
pub open spec fn is_blank(s: Seq<char>) -> bool {
    trimmed(s).len() == 0
}

/// The number of maximal runs of non-white characters in `s`.
pub open spec fn token_count(s: Seq<char>) -> nat
    decreases s.len(),
{
    if s.len() == 0 {
        0
    } else {
        let before = token_count(s.drop_last());
        if !white_space(s.last()) && (s.len() == 1 || white_space(s[s.len() - 2])) {
            before + 1
        } else {
            before
        }
    }
}

/// The URL heuristic: an explicit web scheme, or a single dotted token.
pub open spec fn url_like(s: Seq<char>) -> bool {
    has_prefix(s, seq!['h', 't', 't', 'p', ':', '/', '/'])
        || has_prefix(s, seq!['h', 't', 't', 'p', 's', ':', '/', '/'])
        || (s.contains('.') && token_count(s) == 1)
}

/// Tests whether `s` begins with `p`, character by character.
pub fn starts_with(s: &str, p: &str) -> (r: bool)
    ensures
        r == has_prefix(s@, p@),
{
    let n = s.unicode_len();
    let m = p.unicode_len();
    if m > n {
        return false;
    }
    let mut i: usize = 0;
    while i < m
        invariant
            m <= n,
            n == s@.len(),
            m == p@.len(),
            i <= m,
            forall|j: int| 0 <= j < i ==> s@[j] == p@[j],
        decreases m - i,
    {
        if s.get_char(i) != p.get_char(i) {
            return false;
        }
        i = i + 1;
    }
    assert(s@.subrange(0, m as int) =~= p@);
    true
}

/// Whether two texts hold the same characters.
pub fn same_text(a: &str, b: &str) -> (r: bool)
    ensures
        r == (a@ == b@),
{
    let n = a.unicode_len();
    if n != b.unicode_len() {
        return false;
    }
    let r = starts_with(a, b);
    assert(a@ =~= a@.subrange(0, n as int));
    r
}

/// Whether `c` occurs in `s`.
pub fn contains_char(s: &str, c: char) -> (r: bool)
    ensures
        r == s@.contains(c),
{
    let n = s.unicode_len();
    let mut i: usize = 0;
    while i < n
        invariant
            n == s@.len(),
            i <= n,
            forall|j: int| 0 <= j < i ==> s@[j] != c,
        decreases n - i,
    {
        if s.get_char(i) == c {
            assert(s@[i as int] == c);
            return true;
        }
        i = i + 1;
    }
    false
}

/// Counts the runs of non-white characters, as `split_whitespace` yields them.
pub fn count_tokens(s: &str) -> (r: usize)
    ensures
        r == token_count(s@),
{
    let n = s.unicode_len();
    let mut count: usize = 0;
    let mut prev_white = true;
    let mut i: usize = 0;
    while i < n
        invariant
            n == s@.len(),
            i <= n,
            count <= i,
            count == token_count(s@.subrange(0, i as int)),
            i > 0 ==> prev_white == white_space(s@[i - 1]),
            i == 0 ==> prev_white,
        decreases n - i,
    {
        let c = s.get_char(i);
        let w = is_white(c);
        proof {
            let t = s@.subrange(0, i + 1);
            assert(t.drop_last() =~= s@.subrange(0, i as int));
            assert(t.last() == c);
            if i > 0 {
                assert(t[t.len() - 2] == s@[i - 1]);
            }
        }
        if !w && prev_white {
            count = count + 1;
        }
        prev_white = w;
        i = i + 1;
    }
    assert(s@.subrange(0, n as int) =~= s@);
    count
}

proof fn lemma_skip_lead_step(s: Seq<char>, i: int)
    requires
        0 <= i < s.len(),
        white_space(s[i]),
    ensures
        skip_lead(s.subrange(i, s.len() as int)) == skip_lead(s.subrange(i + 1, s.len() as int)),
{
    let t = s.subrange(i, s.len() as int);
    assert(t[0] == s[i]);
    assert(t.drop_first() =~= s.subrange(i + 1, s.len() as int));
}

proof fn lemma_skip_trail_step(s: Seq<char>, j: int)
    requires
        0 < j <= s.len(),
        white_space(s[j - 1]),
    ensures
        skip_trail(s.subrange(0, j)) == skip_trail(s.subrange(0, j - 1)),
{
    let t = s.subrange(0, j);
    assert(t.last() == s[j - 1]);
    assert(t.drop_last() =~= s.subrange(0, j - 1));
}

/// Removes leading and trailing white space.
pub fn trim(s: &str) -> (r: &str)
    ensures
        r@ == trimmed(s@),
{
    let n = s.unicode_len();
    let mut start: usize = 0;
    assert(s@.subrange(0, n as int) =~= s@);
    while start < n && is_white(s.get_char(start))
        invariant
            n == s@.len(),
            start <= n,
            skip_lead(s@) == skip_lead(s@.subrange(start as int, n as int)),
        decreases n - start,
    {
        proof {
            lemma_skip_lead_step(s@, start as int);
        }
        start = start + 1;
    }
    proof {
        assert(s@.subrange(0, n as int) =~= s@);
    }
    let rest = s.substring_char(start, n);
    assert(skip_lead(s@) == rest@);
    let m = rest.unicode_len();
    let mut end: usize = m;
    assert(rest@.subrange(0, m as int) =~= rest@);
    while end > 0 && is_white(rest.get_char(end - 1))
        invariant
            m == rest@.len(),
            end <= m,
            skip_trail(rest@) == skip_trail(rest@.subrange(0, end as int)),
        decreases end,
    {
        proof {
            lemma_skip_trail_step(rest@, end as int);
        }
        end = end - 1;
    }
    proof {
        assert(rest@.subrange(0, m as int) =~= rest@);
    }
    let r = rest.substring_char(0, end);
    r
}

/// Whether the text should be offered as a URL to open.
pub fn is_url_like(input: &str) -> (r: bool)
    ensures
        r == url_like(input@),
{
    proof {
        reveal_strlit("http://");
        reveal_strlit("https://");
    }
    assert("http://"@ =~= seq!['h', 't', 't', 'p', ':', '/', '/']);
    assert("https://"@ =~= seq!['h', 't', 't', 'p', 's', ':', '/', '/']);
    starts_with(input, "http://") || starts_with(input, "https://") || (contains_char(input, '.')
        && count_tokens(input) == 1)
}

} // verus!
verus! {

/// Lexicographic order of texts by code point, as `str`'s `Ord` orders them.
pub open spec fn text_lt(a: Seq<char>, b: Seq<char>) -> bool
    decreases a.len(),
{
    if a.len() == 0 {
        b.len() > 0
    } else if b.len() == 0 {
        false
    } else if a[0] != b[0] {
        (a[0] as int) < (b[0] as int)
    } else {
        text_lt(a.drop_first(), b.drop_first())
    }
}

/// Whether `a` comes strictly before `b` in code-point order.
pub fn text_less(a: &str, b: &str) -> (r: bool)
    ensures
        r == text_lt(a@, b@),
{
    let n = a.unicode_len();
    let m = b.unicode_len();
    let mut i: usize = 0;
    assert(a@.subrange(0, n as int) =~= a@);
    assert(b@.subrange(0, m as int) =~= b@);
    while i < n && i < m
        invariant
            n == a@.len(),
            m == b@.len(),
            i <= n,
            i <= m,
            text_lt(a@, b@) == text_lt(a@.subrange(i as int, n as int), b@.subrange(i as int, m as int)),
        decreases n - i,
    {
        let x = a.get_char(i);
        let y = b.get_char(i);
        let ghost sa = a@.subrange(i as int, n as int);
        let ghost sb = b@.subrange(i as int, m as int);
        assert(sa[0] == x && sb[0] == y);
        if x != y {
            return (x as u32) < (y as u32);
        }
        assert(sa.drop_first() =~= a@.subrange(i + 1, n as int));
        assert(sb.drop_first() =~= b@.subrange(i + 1, m as int));
        i = i + 1;
    }
    i < m && i == n
}

} // verus!
verus! {

/// The text that some UTF-16 code units encode, or `None` when they hold an
/// unpaired surrogate: a unit outside the surrogate range is a character of
/// its own; a high surrogate and the low surrogate after it make one.
pub open spec fn utf16_text(units: Seq<u16>) -> Option<Seq<char>>
    decreases units.len(),
{
    if units.len() == 0 {
        Some(Seq::empty())
    } else {
        let a = units[0] as int;
        if a < 0xD800 || a > 0xDFFF {
            match utf16_text(units.drop_first()) {
                Some(t) => Some(seq![(a as u32) as char] + t),
                None => None,
            }
        } else if a <= 0xDBFF && units.len() >= 2 && 0xDC00 <= units[1] <= 0xDFFF {
            let c = 0x10000 + (a - 0xD800) * 0x400 + (units[1] - 0xDC00);
            match utf16_text(units.skip(2)) {
                Some(t) => Some(seq![(c as u32) as char] + t),
                None => None,
            }
        } else {
            None
        }
    }
}

/// Relies on `String::from_utf16`: decodes UTF-16, failing exactly on an
/// unpaired surrogate.
#[verifier::external_body]
fn decode_utf16(units: &[u16]) -> (r: Option<String>)
    ensures
        crate::model::opt_text(r) == utf16_text(units@),
{
    String::from_utf16(units).ok()
}

/// The position of the first NUL unit, or the buffer's length.
pub open spec fn nul_end(units: Seq<u16>) -> nat
    decreases units.len(),
{
    if units.len() == 0 || units[0] == 0 {
        0
    } else {
        1 + nul_end(units.drop_first())
    }
}

/// The text in a NUL-terminated UTF-16 buffer; `None` when the buffer is
/// empty before its terminator or is not valid UTF-16.
pub fn wide_to_string(buffer: &[u16]) -> (r: Option<String>)
    ensures
        nul_end(buffer@) == 0 ==> r is None,
        nul_end(buffer@) > 0 ==> crate::model::opt_text(r) == utf16_text(buffer@.take(nul_end(buffer@) as int)),
{
    let n = buffer.len();
    let mut end: usize = 0;
    assert(buffer@.subrange(0, n as int) =~= buffer@);
    while end < n && buffer[end] != 0
        invariant
            n == buffer@.len(),
            end <= n,
            nul_end(buffer@) == end + nul_end(buffer@.subrange(end as int, n as int)),
        decreases n - end,
    {
        proof {
            let t = buffer@.subrange(end as int, n as int);
            assert(t[0] == buffer@[end as int]);
            assert(t.drop_first() =~= buffer@.subrange(end + 1, n as int));
        }
        end = end + 1;
    }
    proof {
        let t = buffer@.subrange(end as int, n as int);
        if t.len() > 0 {
            assert(t[0] == buffer@[end as int]);
        }
    }
    if end == 0 {
        return None;
    }
    let mut units: Vec<u16> = Vec::new();
    let mut i: usize = 0;
    while i < end
        invariant
            end <= n,
            n == buffer@.len(),
            i <= end,
            units@ == buffer@.take(i as int),
        decreases end - i,
    {
        units.push(buffer[i]);
        assert(units@ =~= buffer@.take(i + 1));
        i = i + 1;
    }
    decode_utf16(units.as_slice())
}

} // verus!
verus! {

/// The text order is transitive.
pub proof fn lemma_text_lt_transitive(a: Seq<char>, b: Seq<char>, c: Seq<char>)
    requires
        text_lt(a, b),
        text_lt(b, c),
    ensures
        text_lt(a, c),
    decreases a.len(),
{
    if a.len() > 0 && a[0] == b[0] && b[0] == c[0] {
        lemma_text_lt_transitive(a.drop_first(), b.drop_first(), c.drop_first());
    }
}

/// No text comes before itself.
pub proof fn lemma_text_lt_irreflexive(a: Seq<char>)
    ensures
        !text_lt(a, a),
    decreases a.len(),
{
    if a.len() > 0 {
        lemma_text_lt_irreflexive(a.drop_first());
    }
}

/// Of two different texts, one comes before the other.
pub proof fn lemma_text_lt_total(a: Seq<char>, b: Seq<char>)
    requires
        a != b,
    ensures
        text_lt(a, b) || text_lt(b, a),
    decreases a.len(),
{
    if a.len() > 0 && b.len() > 0 {
        if a[0] == b[0] {
            if a.drop_first() == b.drop_first() {
                assert(a =~= seq![a[0]] + a.drop_first());
                assert(b =~= seq![b[0]] + b.drop_first());
            }
            lemma_text_lt_total(a.drop_first(), b.drop_first());
        } else {
            assert((a[0] as int) != (b[0] as int));
        }
    } else if a.len() == 0 && b.len() == 0 {
        assert(a =~= b);
    }
}

} // verus!

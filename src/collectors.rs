use vstd::prelude::*;
use base64::engine::general_purpose::STANDARD;
use base64::Engine;
use crate::model::{opt_text, texts, AppType, AppView, ApplicationInfo};
use crate::text::{is_white, lower_of, lowercase, same_text, text_less, text_lt, trim, trimmed};

verus! {

/// One digit of the standard base64 alphabet.
pub open spec fn b64_digit(d: int) -> char {
    "ABCDEFGHIJKLMNOPQRSTUVWXYZabcdefghijklmnopqrstuvwxyz0123456789+/"@[d]
}

/// The standard, padded base64 encoding of some bytes: each group of three
/// bytes becomes four digits of six bits; a last group of one or two bytes is
/// padded with `=`.
pub open spec fn base64_of(b: Seq<u8>) -> Seq<char>
    decreases b.len(),
{
    if b.len() == 0 {
        Seq::empty()
    } else if b.len() == 1 {
        let x = b[0] as int;
        seq![b64_digit(x / 4), b64_digit((x % 4) * 16), '=', '=']
    } else if b.len() == 2 {
        let x = b[0] as int;
        let y = b[1] as int;
        seq![b64_digit(x / 4), b64_digit((x % 4) * 16 + y / 16), b64_digit((y % 16) * 4), '=']
    } else {
        let x = b[0] as int;
        let y = b[1] as int;
        let z = b[2] as int;
        seq![b64_digit(x / 4), b64_digit((x % 4) * 16 + y / 16), b64_digit((y % 16) * 4 + z / 64), b64_digit(z % 64)]
            + base64_of(b.skip(3))
    }
}

/// Relies on base64's `STANDARD.encode`: the padded standard encoding; it
/// panics only when the encoded length overflows.
#[verifier::external_body]
pub(crate) fn encode_base64(b: &Vec<u8>) -> (r: String)
    requires
        b@.len() < usize::MAX / 2,
    ensures
        r@ == base64_of(b@),
{
    STANDARD.encode(b)
}

/// The first position in `s` of a text above `x`, or the length of `s`.
pub open spec fn first_after(s: Seq<Seq<char>>, x: Seq<char>) -> nat
    decreases s.len(),
{
    if s.len() == 0 {
        0
    } else if text_lt(x, s[0]) {
        0
    } else {
        1 + first_after(s.drop_first(), x)
    }
}

/// The distinct texts of `s` in ascending order, built by inserting each in turn.
pub open spec fn sorted_distinct(s: Seq<Seq<char>>) -> Seq<Seq<char>>
    decreases s.len(),
{
    if s.len() == 0 {
        s
    } else {
        let r = sorted_distinct(s.drop_last());
        if r.contains(s.last()) {
            r
        } else {
            r.insert(first_after(r, s.last()) as int, s.last())
        }
    }
}

proof fn lemma_first_after_step(s: Seq<Seq<char>>, p: int, x: Seq<char>)
    requires
        0 <= p < s.len(),
        !text_lt(x, s[p]),
    ensures
        first_after(s.subrange(p, s.len() as int), x) == 1 + first_after(s.subrange(p + 1, s.len() as int), x),
{
    let t = s.subrange(p, s.len() as int);
    assert(t[0] == s[p]);
    assert(t.drop_first() =~= s.subrange(p + 1, s.len() as int));
}

/// Texts in strictly ascending order: sorted, with no repeats.
pub open spec fn strictly_ascending(s: Seq<Seq<char>>) -> bool {
    forall|i: int, j: int| 0 <= i < j < s.len() ==> text_lt(s[i], s[j])
}

proof fn lemma_first_after(s: Seq<Seq<char>>, x: Seq<char>)
    ensures
        first_after(s, x) <= s.len(),
        forall|j: int| 0 <= j < first_after(s, x) ==> !text_lt(x, #[trigger] s[j]),
        first_after(s, x) < s.len() ==> text_lt(x, s[first_after(s, x) as int]),
    decreases s.len(),
{
    if s.len() > 0 && !text_lt(x, s[0]) {
        let t = s.drop_first();
        lemma_first_after(t, x);
        assert forall|j: int| 0 <= j < first_after(s, x) implies !text_lt(x, #[trigger] s[j]) by {
            if j > 0 {
                assert(s[j] == t[j - 1]);
            }
        }
        if first_after(s, x) < s.len() {
            assert(s[first_after(s, x) as int] == t[first_after(t, x) as int]);
        }
    }
}

/// What `sorted_distinct` builds is strictly ascending and holds exactly the
/// texts of its input.
pub proof fn lemma_sorted_distinct(s: Seq<Seq<char>>)
    ensures
        strictly_ascending(sorted_distinct(s)),
        forall|x: Seq<char>| sorted_distinct(s).contains(x) <==> s.contains(x),
    decreases s.len(),
{
    if s.len() > 0 {
        let init = s.drop_last();
        let x = s.last();
        lemma_sorted_distinct(init);
        let r = sorted_distinct(init);
        assert(s[s.len() - 1] == x);
        assert forall|y: Seq<char>| s.contains(y) <==> init.contains(y) || y == x by {
            if s.contains(y) {
                let j = choose|j: int| 0 <= j < s.len() && s[j] == y;
                if j < init.len() {
                    assert(init[j] == s[j]);
                }
            }
            if init.contains(y) {
                let j = choose|j: int| 0 <= j < init.len() && init[j] == y;
                assert(s[j] == init[j]);
            }
        }
        if !r.contains(x) {
            lemma_first_after(r, x);
            let p = first_after(r, x) as int;
            let out = r.insert(p, x);
            assert(out[p] == x);
            assert forall|i: int, j: int| 0 <= i < j < out.len() implies text_lt(out[i], out[j]) by {
                if j < p {
                    assert(out[i] == r[i] && out[j] == r[j]);
                } else if j == p {
                    assert(out[i] == r[i]);
                    assert(r[i] != x);
                    crate::text::lemma_text_lt_total(r[i], x);
                } else if i < p {
                    assert(out[i] == r[i] && out[j] == r[j - 1]);
                } else if i == p {
                    assert(out[j] == r[j - 1]);
                    if j - 1 > p {
                        crate::text::lemma_text_lt_transitive(x, r[p], r[j - 1]);
                    }
                } else {
                    assert(out[i] == r[i - 1] && out[j] == r[j - 1]);
                }
            }
            assert forall|y: Seq<char>| out.contains(y) <==> r.contains(y) || y == x by {
                if out.contains(y) {
                    let j = choose|j: int| 0 <= j < out.len() && out[j] == y;
                    if j < p {
                        assert(out[j] == r[j]);
                    } else if j > p {
                        assert(out[j] == r[j - 1]);
                    }
                }
                if r.contains(y) {
                    let m = choose|m: int| 0 <= m < r.len() && r[m] == y;
                    if m < p {
                        assert(out[m] == r[m]);
                    } else {
                        assert(out[m + 1] == r[m]);
                    }
                }
            }
        }
    }
}

fn contains_text(v: &Vec<String>, x: &str) -> (r: bool)
    ensures
        r == texts(v@).contains(x@),
{
    let ghost tv = texts(v@);
    let mut i: usize = 0;
    while i < v.len()
        invariant
            tv == texts(v@),
            i <= v@.len(),
            forall|j: int| 0 <= j < i ==> tv[j] != x@,
        decreases v@.len() - i,
    {
        if same_text(v[i].as_str(), x) {
            assert(tv[i as int] == x@);
            return true;
        }
        i = i + 1;
    }
    false
}

/// Sorts texts in code-point order and drops repeats.
pub fn sort_distinct(items: &Vec<String>) -> (r: Vec<String>)
    ensures
        texts(r@) == sorted_distinct(texts(items@)),
        strictly_ascending(texts(r@)),
        forall|x: Seq<char>| texts(r@).contains(x) <==> texts(items@).contains(x),
{
    proof {
        lemma_sorted_distinct(texts(items@));
    }
    let ghost all = texts(items@);
    let mut out: Vec<String> = Vec::new();
    let mut i: usize = 0;
    assert(all.subrange(0, 0) =~= Seq::<Seq<char>>::empty());
    assert(texts(out@) =~= Seq::<Seq<char>>::empty());
    while i < items.len()
        invariant
            all == texts(items@),
            i <= items@.len(),
            texts(out@) == sorted_distinct(all.subrange(0, i as int)),
        decreases items@.len() - i,
    {
        let x = &items[i];
        proof {
            let pre = all.subrange(0, i + 1);
            assert(pre.drop_last() =~= all.subrange(0, i as int));
            assert(pre.last() == x@);
        }
        if !contains_text(&out, x.as_str()) {
            let ghost ov = texts(out@);
            let mut p: usize = 0;
            assert(ov.subrange(0, ov.len() as int) =~= ov);
            while p < out.len() && !text_less(x.as_str(), out[p].as_str())
                invariant
                    ov == texts(out@),
                    p <= out@.len(),
                    first_after(ov, x@) == p + first_after(ov.subrange(p as int, ov.len() as int), x@),
                decreases out@.len() - p,
            {
                proof {
                    lemma_first_after_step(ov, p as int, x@);
                }
                p = p + 1;
            }
            proof {
                let t = ov.subrange(p as int, ov.len() as int);
                if t.len() > 0 {
                    assert(t[0] == ov[p as int]);
                }
            }
            out.insert(p, x.clone());
            assert(texts(out@) =~= ov.insert(p as int, x@));
        }
        i = i + 1;
    }
    assert(all.subrange(0, items@.len() as int) =~= all);
    out
}

/// What the installed-software registry records of one entry.
#[derive(Debug, Default)]
pub struct RegistryEntry {
    pub system_component: Option<u32>,
    pub no_display: Option<u32>,
    pub display_name: Option<String>,
    pub publisher: Option<String>,
    pub display_version: Option<String>,
}

/// Whether a text holds more than white space.
pub open spec fn filled(s: Seq<char>) -> bool {
    trimmed(s).len() > 0
}

/// A registry entry is listed unless it is a system component, hidden, or
/// has no display name.
pub open spec fn entry_listed(e: &RegistryEntry) -> bool {
    &&& e.system_component != Some(1u32)
    &&& e.no_display != Some(1u32)
    &&& e.display_name matches Some(n) && filled(n@)
}

/// The publisher, when it holds more than white space.
pub open spec fn entry_publisher(e: &RegistryEntry) -> Option<Seq<char>> {
    match e.publisher {
        Some(p) => if filled(p@) {
            Some(p@)
        } else {
            None
        },
        None => None,
    }
}

/// The keywords of a registry entry before sorting: the name, the publisher
/// and the version, each where it holds more than white space.
pub open spec fn entry_keywords(e: &RegistryEntry) -> Seq<Seq<char>> {
    let name = trimmed(e.display_name->0@);
    let with_publisher = match entry_publisher(e) {
        Some(p) => seq![name, p],
        None => seq![name],
    };
    match e.display_version {
        Some(v) => if filled(v@) {
            with_publisher.push(v@)
        } else {
            with_publisher
        },
        None => with_publisher,
    }
}

/// The id of a registry entry: its subtree and name, lower-cased.
pub open spec fn entry_id(parent_path: Seq<char>, entry_name: Seq<char>) -> Seq<char> {
    lower_of("win32:installed:"@ + parent_path + ":"@ + entry_name)
}

/// The descriptor of a listed registry entry with a resolved executable.
pub open spec fn win32_app(
    e: &RegistryEntry,
    parent_path: Seq<char>,
    entry_name: Seq<char>,
    executable: Seq<char>,
    icon: Seq<char>,
) -> AppView {
    AppView {
        id: entry_id(parent_path, entry_name),
        name: trimmed(e.display_name->0@),
        path: executable,
        app_type: AppType::Win32,
        icon: icon,
        description: entry_publisher(e),
        keywords: sorted_distinct(entry_keywords(e)),
    }
}

/// Whether a registry entry should be listed at all.
pub fn registry_entry_listed(e: &RegistryEntry) -> (r: bool)
    ensures
        r == entry_listed(e),
{
    let flagged = match e.system_component {
        Some(v) => v == 1,
        None => false,
    } || match e.no_display {
        Some(v) => v == 1,
        None => false,
    };
    if flagged {
        return false;
    }
    match &e.display_name {
        Some(n) => trim(n.as_str()).unicode_len() > 0,
        None => false,
    }
}

fn text_filled(s: &str) -> (r: bool)
    ensures
        r == filled(s@),
{
    trim(s).unicode_len() > 0
}

/// Builds the descriptor of a native app from its registry entry, the
/// executable resolved for it and its icon; nothing for an entry that is not
/// listed or has no executable.
pub fn registry_entry_to_app(
    e: &RegistryEntry,
    parent_path: &str,
    entry_name: &str,
    executable: Option<String>,
    icon_b64: String,
) -> (r: Option<ApplicationInfo>)
    ensures
        r is Some <==> entry_listed(e) && executable is Some,
        r matches Some(a) ==> a@ == win32_app(e, parent_path@, entry_name@, executable->0@, icon_b64@),
{
    if !registry_entry_listed(e) {
        return None;
    }
    let path = match executable {
        Some(p) => p,
        None => {
            return None;
        },
    };
    let display_name = match &e.display_name {
        Some(n) => String::from_str(trim(n.as_str())),
        None => {
            return None;
        },
    };
    let description = match &e.publisher {
        Some(p) => if text_filled(p.as_str()) {
            Some(p.clone())
        } else {
            None
        },
        None => None,
    };
    let mut keywords: Vec<String> = Vec::new();
    keywords.push(display_name.clone());
    match &description {
        Some(d) => {
            keywords.push(d.clone());
        },
        None => {},
    }
    match &e.display_version {
        Some(v) => if text_filled(v.as_str()) {
            keywords.push(v.clone());
        },
        None => {},
    }
    assert(texts(keywords@) =~= entry_keywords(e));
    let keywords = sort_distinct(&keywords);
    let raw_id = String::from_str("win32:installed:").concat(parent_path).concat(":").concat(entry_name);
    let id = lowercase(raw_id.as_str());
    let r = ApplicationInfo {
        id,
        name: display_name,
        path,
        app_type: AppType::Win32,
        icon_b64,
        description,
        keywords,
    };
    assert(opt_text(r.description) == entry_publisher(e));
    Some(r)
}

/// `s` with `o` appended, when `o` is a non-empty text.
pub open spec fn push_filled(s: Seq<Seq<char>>, o: Option<Seq<char>>) -> Seq<Seq<char>> {
    match o {
        Some(t) => if t.len() > 0 {
            s.push(t)
        } else {
            s
        },
        None => s,
    }
}

/// The keywords of a packaged app before sorting, the empty ones left out:
/// description, name, app id and the package's name, family and full name.
pub open spec fn packaged_keywords(
    app_id: Seq<char>,
    name: Seq<char>,
    description: Option<Seq<char>>,
    package_name: Option<Seq<char>>,
    family_name: Option<Seq<char>>,
    full_name: Option<Seq<char>>,
) -> Seq<Seq<char>> {
    push_filled(
        push_filled(
            push_filled(
                push_filled(push_filled(push_filled(Seq::empty(), description), Some(name)), Some(app_id)),
                package_name,
            ),
            family_name,
        ),
        full_name,
    )
}

/// A description, when it is not empty.
pub open spec fn nonempty_text(o: Option<Seq<char>>) -> Option<Seq<char>> {
    match o {
        Some(d) => if d.len() > 0 {
            Some(d)
        } else {
            None
        },
        None => None,
    }
}

/// The icon of a packaged app: its logo's bytes in base64, or nothing.
pub open spec fn logo_icon(logo: Option<Seq<u8>>) -> Seq<char> {
    match logo {
        Some(b) => if 0 < b.len() < usize::MAX / 2 {
            base64_of(b)
        } else {
            Seq::empty()
        },
        None => Seq::empty(),
    }
}

/// The descriptor of a packaged app.
pub open spec fn packaged_app_view(
    app_id: Seq<char>,
    name: Seq<char>,
    description: Option<Seq<char>>,
    package_name: Option<Seq<char>>,
    family_name: Option<Seq<char>>,
    full_name: Option<Seq<char>>,
    logo: Option<Seq<u8>>,
) -> AppView {
    AppView {
        id: "uwp:"@ + lower_of(app_id),
        name: name,
        path: app_id,
        app_type: AppType::Uwp,
        icon: logo_icon(logo),
        description: nonempty_text(description),
        keywords: sorted_distinct(
            packaged_keywords(app_id, name, nonempty_text(description), package_name, family_name, full_name),
        ),
    }
}

fn push_nonempty(v: &mut Vec<String>, s: &Option<String>)
    ensures
        texts(final(v)@) == push_filled(texts(old(v)@), opt_text(*s)),
{
    let ghost before = texts(v@);
    match s {
        Some(t) => if t.unicode_len() > 0 {
            v.push(t.clone());
            assert(texts(v@) =~= before.push(t@));
        },
        None => {},
    }
}

/// Builds the descriptor of a packaged app from what the package catalogue
/// reports of it, and the raw bytes of its logo when they could be read.
pub fn packaged_app(
    app_id: &str,
    display_name: &str,
    description: Option<String>,
    package_name: Option<String>,
    family_name: Option<String>,
    full_name: Option<String>,
    logo: Option<Vec<u8>>,
) -> (r: ApplicationInfo)
    ensures
        r@ == packaged_app_view(
            app_id@,
            display_name@,
            opt_text(description),
            opt_text(package_name),
            opt_text(family_name),
            opt_text(full_name),
            match logo {
                Some(b) => Some(b@),
                None => None,
            },
        ),
{
    let description = match description {
        Some(d) => if d.unicode_len() > 0 {
            Some(d)
        } else {
            None
        },
        None => None,
    };
    let name = String::from_str(display_name);
    let id_text = String::from_str(app_id);
    let mut keywords: Vec<String> = Vec::new();
    assert(texts(keywords@) =~= Seq::<Seq<char>>::empty());
    push_nonempty(&mut keywords, &description);
    push_nonempty(&mut keywords, &Some(name.clone()));
    push_nonempty(&mut keywords, &Some(id_text.clone()));
    push_nonempty(&mut keywords, &package_name);
    push_nonempty(&mut keywords, &family_name);
    push_nonempty(&mut keywords, &full_name);
    let keywords = sort_distinct(&keywords);
    let icon_b64 = match &logo {
        Some(b) => if b.len() > 0 && b.len() < usize::MAX / 2 {
            encode_base64(b)
        } else {
            String::new()
        },
        None => String::new(),
    };
    ApplicationInfo {
        id: String::from_str("uwp:").concat(lowercase(app_id).as_str()),
        name,
        path: id_text,
        app_type: AppType::Uwp,
        icon_b64,
        description,
        keywords,
    }
}

} // verus!

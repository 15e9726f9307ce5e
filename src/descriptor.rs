use vstd::prelude::*;
use vstd::string::{StrSliceExecFns, StringExecFns};
use global_hotkey::hotkey::HotKey;

verus! {

#[verifier::external_type_specification]
#[verifier::external_body]
pub struct ExHotKey(HotKey);

/// `s` with every non-overlapping occurrence of `pat`, scanned from the left,
/// replaced by `rep`. An empty `pat` leaves `s` as it is.
pub open spec fn replace_all(s: Seq<char>, pat: Seq<char>, rep: Seq<char>) -> Seq<char>
    decreases s.len(),
{
    if s.len() == 0 {
        s
    } else if pat.len() > 0 && pat.len() <= s.len() && s.subrange(0, pat.len() as int) == pat {
        rep + replace_all(s.subrange(pat.len() as int, s.len() as int), pat, rep)
    } else {
        seq![s[0]] + replace_all(s.drop_first(), pat, rep)
    }
}

/// The named key code that a trailing symbol character stands for, both the
/// plain character and its shifted variant.
pub open spec fn symbol_key_name(c: char) -> Option<Seq<char>> {
    if c == '`' || c == '~' {
        Some("Backquote"@)
    } else if c == '-' || c == '_' {
        Some("Minus"@)
    } else if c == '=' {
        Some("Equal"@)
    } else if c == '[' || c == '{' {
        Some("BracketLeft"@)
    } else if c == ']' || c == '}' {
        Some("BracketRight"@)
    } else if c == '\\' || c == '|' {
        Some("Backslash"@)
    } else if c == ';' || c == ':' {
        Some("Semicolon"@)
    } else if c == '\'' || c == '"' {
        Some("Quote"@)
    } else if c == ',' || c == '<' {
        Some("Comma"@)
    } else if c == '.' || c == '>' {
        Some("Period"@)
    } else if c == '/' || c == '?' {
        Some("Slash"@)
    } else {
        None
    }
}

/// A descriptor ending in `+` and a symbol character has that character
/// replaced by its key name; any other descriptor is unchanged.
pub open spec fn with_symbol_key(s: Seq<char>) -> Seq<char> {
    if s.len() >= 2 && s[s.len() - 2] == '+' && symbol_key_name(s.last()) is Some {
        s.subrange(0, s.len() - 1) + symbol_key_name(s.last())->Some_0
    } else {
        s
    }
}

/// The canonical spelling of a descriptor: `Win+` becomes `Super+`, then
/// `Ctrl+` becomes `Control+`, then a trailing symbol gets its key name.
pub open spec fn canonical_descriptor(s: Seq<char>) -> Seq<char> {
    with_symbol_key(
        replace_all(replace_all(s, "Win+"@, "Super+"@), "Ctrl+"@, "Control+"@),
    )
}

/// Whether the shortcut grammar accepts a canonical descriptor.
pub uninterp spec fn shortcut_grammar_accepts(s: Seq<char>) -> bool;

/// Relies on `global_hotkey`'s `FromStr` for `HotKey` (the type the shortcut
/// plugin registers): whether it accepts a string depends on its characters
/// alone. The parse error is kept as its message.
#[verifier::external_body]
fn parse_hotkey(s: &str) -> (r: Result<HotKey, String>)
    ensures
        r is Ok == shortcut_grammar_accepts(s@),
{
    s.parse::<HotKey>().map_err(|e| e.to_string())
}

fn matches_at(s: &str, n: usize, i: usize, pat: &str, m: usize) -> (r: bool)
    requires
        n == s@.len(),
        m == pat@.len(),
        i <= n,
    ensures
        r == (m <= n - i && s@.subrange(i as int, i + m) == pat@),
{
    if m > n - i {
        return false;
    }
    let mut j: usize = 0;
    while j < m
        invariant
            n == s@.len(),
            m == pat@.len(),
            i + m <= n,
            j <= m,
            forall|k: int| 0 <= k < j ==> s@[i + k] == pat@[k],
        decreases m - j,
    {
        if s.get_char(i + j) != pat.get_char(j) {
            assert(s@.subrange(i as int, i + m)[j as int] != pat@[j as int]);
            return false;
        }
        j = j + 1;
    }
    assert(s@.subrange(i as int, i + m) =~= pat@);
    true
}

/// Whether `s` begins with `prefix`.
pub fn starts_with(s: &str, prefix: &str) -> (r: bool)
    ensures
        r == (prefix@.len() <= s@.len() && s@.subrange(0, prefix@.len() as int) == prefix@),
{
    let n = s.unicode_len();
    let m = prefix.unicode_len();
    matches_at(s, n, 0, prefix, m)
}

/// Whether `needle` occurs somewhere in `s`.
pub open spec fn has_substring(s: Seq<char>, needle: Seq<char>) -> bool {
    exists|i: int|
        0 <= i && i + needle.len() <= s.len() && #[trigger] s.subrange(i, i + needle.len())
            == needle
}

/// Whether `needle` occurs somewhere in `s`.
pub fn contains_str(s: &str, needle: &str) -> (r: bool)
    ensures
        r == has_substring(s@, needle@),
{
    let n = s.unicode_len();
    let m = needle.unicode_len();
    if m > n {
        return false;
    }
    if m == 0 {
        assert(s@.subrange(0, 0 + needle@.len() as int) =~= needle@);
        return true;
    }
    let mut i: usize = 0;
    while i <= n - m
        invariant
            n == s@.len(),
            m == needle@.len(),
            1 <= m <= n,
            i <= n - m + 1,
            forall|j: int| 0 <= j < i ==> #[trigger] s@.subrange(j, j + m) != needle@,
        decreases n - m + 1 - i,
    {
        if matches_at(s, n, i, needle, m) {
            return true;
        }
        i = i + 1;
    }
    false
}

/// Replaces every occurrence of `pat` in `s` by `rep`, left to right.
pub fn replace_all_str(s: &str, pat: &str, rep: &str) -> (r: String)
    ensures
        r@ == replace_all(s@, pat@, rep@),
{
    let n = s.unicode_len();
    let m = pat.unicode_len();
    let mut out = String::new();
    let mut i: usize = 0;
    proof {
        assert(s@.subrange(0, n as int) =~= s@);
        assert(out@ + replace_all(s@, pat@, rep@) =~= replace_all(s@, pat@, rep@));
    }
    while i < n
        invariant
            n == s@.len(),
            m == pat@.len(),
            i <= n,
            out@ + replace_all(s@.subrange(i as int, n as int), pat@, rep@) == replace_all(
                s@,
                pat@,
                rep@,
            ),
        decreases n - i,
    {
        let ghost t = s@.subrange(i as int, n as int);
        let ghost before = out@;
        if m > 0 && matches_at(s, n, i, pat, m) {
            proof {
                assert(t.subrange(0, m as int) =~= s@.subrange(i as int, i + m));
                assert(t.subrange(m as int, t.len() as int) =~= s@.subrange(i + m, n as int));
            }
            out.append(rep);
            i = i + m;
            proof {
                let rest = replace_all(s@.subrange(i as int, n as int), pat@, rep@);
                assert(replace_all(t, pat@, rep@) == rep@ + rest);
                assert(before + (rep@ + rest) =~= out@ + rest);
            }
        } else {
            proof {
                if m > 0 && m <= t.len() {
                    assert(t.subrange(0, m as int) =~= s@.subrange(i as int, i + m));
                }
                assert(t.drop_first() =~= s@.subrange(i + 1, n as int));
            }
            out.append(s.substring_char(i, i + 1));
            i = i + 1;
            proof {
                let rest = replace_all(s@.subrange(i as int, n as int), pat@, rep@);
                assert(s@.subrange(i - 1, i as int) =~= seq![t[0]]);
                assert(replace_all(t, pat@, rep@) == seq![t[0]] + rest);
                assert(before + (seq![t[0]] + rest) =~= out@ + rest);
            }
        }
    }
    proof {
        assert(s@.subrange(n as int, n as int) =~= Seq::<char>::empty());
        assert(out@ + Seq::<char>::empty() =~= out@);
    }
    out
}

/// The key name for a trailing symbol character, if it is one.
pub fn symbol_key(c: char) -> (r: Option<&'static str>)
    ensures
        match r {
            Some(name) => symbol_key_name(c) == Some(name@),
            None => symbol_key_name(c) is None,
        },
{
    if c == '`' || c == '~' {
        Some("Backquote")
    } else if c == '-' || c == '_' {
        Some("Minus")
    } else if c == '=' {
        Some("Equal")
    } else if c == '[' || c == '{' {
        Some("BracketLeft")
    } else if c == ']' || c == '}' {
        Some("BracketRight")
    } else if c == '\\' || c == '|' {
        Some("Backslash")
    } else if c == ';' || c == ':' {
        Some("Semicolon")
    } else if c == '\'' || c == '"' {
        Some("Quote")
    } else if c == ',' || c == '<' {
        Some("Comma")
    } else if c == '.' || c == '>' {
        Some("Period")
    } else if c == '/' || c == '?' {
        Some("Slash")
    } else {
        None
    }
}

/// Renames vendor modifier spellings and names a trailing symbol key; the
/// result is what the shortcut grammar is given.
pub fn normalize_descriptor(descriptor: &str) -> (r: String)
    ensures
        r@ == canonical_descriptor(descriptor@),
{
    let a = replace_all_str(descriptor, "Win+", "Super+");
    let b = replace_all_str(a.as_str(), "Ctrl+", "Control+");
    let n = b.as_str().unicode_len();
    if n >= 2 && b.as_str().get_char(n - 2) == '+' {
        let last = b.as_str().get_char(n - 1);
        match symbol_key(last) {
            Some(name) => {
                let mut out = String::from_str(b.as_str().substring_char(0, n - 1));
                out.append(name);
                return out;
            },
            None => {},
        }
    }
    b
}

/// Parses a descriptor into the shortcut the OS layer registers: it is
/// normalised first, then handed to the shortcut grammar. Never touches any
/// registration state.
pub fn parse_shortcut(shortcut_str: &str) -> (r: Result<HotKey, String>)
    ensures
        r is Ok == shortcut_grammar_accepts(canonical_descriptor(shortcut_str@)),
{
    let normalized = normalize_descriptor(shortcut_str);
    parse_hotkey(normalized.as_str())
}

} // verus!

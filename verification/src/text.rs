//! Character-sequence helpers: lexicographic order, path-component
//! extraction, ASCII case folding and decimal rendering.
//!
//! Paths are held as plain strings; a `/` separates components and the
//! final component's last `.` starts its extension.

use vstd::prelude::*;

verus! {

/// Lexicographic "less or equal" on character sequences, by code point.
pub open spec fn lex_le(a: Seq<char>, b: Seq<char>) -> bool
    decreases a.len(),
{
    if a.len() == 0 {
        true
    } else if b.len() == 0 {
        false
    } else if a[0] != b[0] {
        a[0] < b[0]
    } else {
        lex_le(a.skip(1), b.skip(1))
    }
}

/// Any two sequences are ordered one way or the other.
pub proof fn lemma_lex_le_total(a: Seq<char>, b: Seq<char>)
    ensures
        lex_le(a, b) || lex_le(b, a),
    decreases a.len(),
{
    if a.len() != 0 && b.len() != 0 && a[0] == b[0] {
        lemma_lex_le_total(a.skip(1), b.skip(1));
    }
}

/// The order is transitive.
pub proof fn lemma_lex_le_trans(a: Seq<char>, b: Seq<char>, c: Seq<char>)
    requires
        lex_le(a, b),
        lex_le(b, c),
    ensures
        lex_le(a, c),
    decreases a.len(),
{
    if a.len() != 0 && b.len() != 0 && c.len() != 0 {
        if a[0] == b[0] && b[0] == c[0] {
            lemma_lex_le_trans(a.skip(1), b.skip(1), c.skip(1));
        }
    }
}

/// Mutual ordering forces equality.
pub proof fn lemma_lex_le_antisym(a: Seq<char>, b: Seq<char>)
    requires
        lex_le(a, b),
        lex_le(b, a),
    ensures
        a == b,
    decreases a.len(),
{
    if a.len() != 0 && b.len() != 0 {
        if a[0] == b[0] {
            lemma_lex_le_antisym(a.skip(1), b.skip(1));
            assert(a =~= seq![a[0]] + a.skip(1));
            assert(b =~= seq![b[0]] + b.skip(1));
        }
    } else {
        assert(a =~= b);
    }
}

/// Equality test on string slices.
pub fn str_eq(a: &str, b: &str) -> (r: bool)
    ensures
        r == (a@ == b@),
{
    let alen = a.unicode_len();
    let blen = b.unicode_len();
    if alen != blen {
        assert(a@ != b@);
        return false;
    }
    let mut i: usize = 0;
    while i < alen
        invariant
            alen == a@.len(),
            alen == b@.len(),
            i <= alen,
            forall|j: int| 0 <= j < i ==> a@[j] == b@[j],
        decreases alen - i,
    {
        if a.get_char(i) != b.get_char(i) {
            return false;
        }
        i = i + 1;
    }
    assert(a@ =~= b@);
    true
}

/// Lexicographic comparison on string slices.
pub fn str_le(a: &str, b: &str) -> (r: bool)
    ensures
        r == lex_le(a@, b@),
{
    let alen = a.unicode_len();
    let blen = b.unicode_len();
    let mut i: usize = 0;
    proof {
        assert(a@.skip(0) =~= a@);
        assert(b@.skip(0) =~= b@);
    }
    loop
        invariant
            alen == a@.len(),
            blen == b@.len(),
            i <= alen,
            i <= blen,
            lex_le(a@, b@) == lex_le(a@.skip(i as int), b@.skip(i as int)),
            lex_le(b@, a@) == lex_le(b@.skip(i as int), a@.skip(i as int)),
        decreases alen - i,
    {
        if i == alen {
            return true;
        }
        if i == blen {
            return false;
        }
        let ca = a.get_char(i);
        let cb = b.get_char(i);
        if ca != cb {
            return ca < cb;
        }
        proof {
            assert(a@.skip(i as int).skip(1) =~= a@.skip(i + 1));
            assert(b@.skip(i as int).skip(1) =~= b@.skip(i + 1));
        }
        i = i + 1;
    }
}

/// Index of the last occurrence of `c` in `s`, or `-1` if `c` does not occur.
pub open spec fn last_index_of(s: Seq<char>, c: char) -> int
    decreases s.len(),
{
    if s.len() == 0 {
        -1
    } else if s.last() == c {
        s.len() - 1
    } else {
        last_index_of(s.drop_last(), c)
    }
}

/// `last_index_of` points at an occurrence and nothing follows it.
pub proof fn lemma_last_index_of(s: Seq<char>, c: char)
    ensures
        -1 <= last_index_of(s, c) < s.len(),
        last_index_of(s, c) >= 0 ==> s[last_index_of(s, c)] == c,
        forall|j: int| last_index_of(s, c) < j < s.len() ==> s[j] != c,
    decreases s.len(),
{
    if s.len() > 0 && s.last() != c {
        lemma_last_index_of(s.drop_last(), c);
        assert(forall|j: int| 0 <= j < s.len() - 1 ==> s[j] == s.drop_last()[j]);
    }
}

/// Position of the last occurrence of `c` in `s`, if any.
pub fn find_last(s: &str, c: char) -> (r: Option<usize>)
    ensures
        match r {
            Some(i) => i == last_index_of(s@, c),
            None => last_index_of(s@, c) == -1,
        },
{
    proof {
        lemma_last_index_of(s@, c);
    }
    let len = s.unicode_len();
    let mut i: usize = len;
    while i > 0
        invariant
            len == s@.len(),
            i <= len,
            forall|j: int| i <= j < len ==> s@[j] != c,
        decreases i,
    {
        i = i - 1;
        if s.get_char(i) == c {
            proof {
                lemma_last_index_of(s@, c);
                let l = last_index_of(s@, c);
                if l < i {
                    assert(s@[i as int] != c);
                } else if l > i {
                    assert(s@[l] != c);
                }
            }
            return Some(i);
        }
    }
    None
}

/// The final component of a path: everything after the last `/`.
pub open spec fn file_name_of(p: Seq<char>) -> Seq<char> {
    p.skip(last_index_of(p, '/') + 1)
}

/// The stem of a file name: everything before the last `.`, unless the
/// only `.` leads the name (a hidden file keeps its full name).
pub open spec fn stem_of(name: Seq<char>) -> Seq<char> {
    if last_index_of(name, '.') > 0 {
        name.take(last_index_of(name, '.'))
    } else {
        name
    }
}

/// The extension of a file name: everything after the last `.`, absent
/// when no `.` follows the first character.
pub open spec fn extension_of(name: Seq<char>) -> Option<Seq<char>> {
    if last_index_of(name, '.') > 0 {
        Some(name.skip(last_index_of(name, '.') + 1))
    } else {
        None
    }
}

/// The final component of `p`, as a borrowed slice.
pub fn file_name_str(p: &str) -> (r: &str)
    ensures
        r@ == file_name_of(p@),
{
    proof {
        lemma_last_index_of(p@, '/');
    }
    let len = p.unicode_len();
    match find_last(p, '/') {
        Some(i) => p.substring_char(i + 1, len),
        None => {
            proof {
                assert(p@.skip(0) =~= p@);
                assert(p@.subrange(0, len as int) =~= p@);
            }
            p.substring_char(0, len)
        },
    }
}

/// The stem of a file name, as a borrowed slice.
pub fn stem_str(name: &str) -> (r: &str)
    ensures
        r@ == stem_of(name@),
{
    proof {
        lemma_last_index_of(name@, '.');
    }
    let len = name.unicode_len();
    match find_last(name, '.') {
        Some(i) if i > 0 => {
            proof {
                assert(name@.subrange(0, i as int) =~= name@.take(i as int));
            }
            name.substring_char(0, i)
        },
        _ => {
            proof {
                assert(name@.subrange(0, len as int) =~= name@);
            }
            name.substring_char(0, len)
        },
    }
}

/// The extension of a file name, as a borrowed slice.
pub fn extension_str(name: &str) -> (r: Option<&str>)
    ensures
        match r {
            Some(e) => extension_of(name@) == Some(e@),
            None => extension_of(name@) is None,
        },
{
    proof {
        lemma_last_index_of(name@, '.');
    }
    let len = name.unicode_len();
    match find_last(name, '.') {
        Some(i) if i > 0 => Some(name.substring_char(i + 1, len)),
        _ => None,
    }
}

/// A path as displayed: a leading Windows drive prefix is dropped.
pub open spec fn strip_drive(p: Seq<char>) -> Seq<char> {
    if p.len() >= 3 && p[0] == 'C' && p[1] == ':' && p[2] == '\\' {
        p.skip(3)
    } else {
        p
    }
}

/// Drop a leading Windows drive prefix, if present.
pub fn strip_drive_str(p: &str) -> (r: &str)
    ensures
        r@ == strip_drive(p@),
{
    let len = p.unicode_len();
    if len >= 3 && p.get_char(0) == 'C' && p.get_char(1) == ':' && p.get_char(2) == '\\' {
        p.substring_char(3, len)
    } else {
        p
    }
}

/// ASCII lower-casing of one character; other characters are untouched.
pub open spec fn lower_char(c: char) -> char {
    if 'A' <= c && c <= 'Z' {
        ((c as u8) + 32) as char
    } else {
        c
    }
}

/// ASCII lower-casing of a whole sequence.
pub open spec fn lower_seq(s: Seq<char>) -> Seq<char> {
    Seq::new(s.len(), |i: int| lower_char(s[i]))
}

/// ASCII lower-casing of one character.
pub fn lower_char_exec(c: char) -> (r: char)
    ensures
        r == lower_char(c),
{
    if 'A' <= c && c <= 'Z' {
        ((c as u8) + 32) as char
    } else {
        c
    }
}

/// Does `s`, lower-cased ASCII-wise, equal `lit`?
pub fn eq_lower(s: &str, lit: &str) -> (r: bool)
    ensures
        r == (lower_seq(s@) == lit@),
{
    let slen = s.unicode_len();
    let llen = lit.unicode_len();
    if slen != llen {
        assert(lower_seq(s@) != lit@) by {
            assert(lower_seq(s@).len() != lit@.len());
        }
        return false;
    }
    let mut i: usize = 0;
    while i < slen
        invariant
            slen == s@.len(),
            slen == lit@.len(),
            i <= slen,
            forall|j: int| 0 <= j < i ==> lower_char(s@[j]) == lit@[j],
        decreases slen - i,
    {
        if lower_char_exec(s.get_char(i)) != lit.get_char(i) {
            assert(lower_seq(s@)[i as int] != lit@[i as int]);
            return false;
        }
        i = i + 1;
    }
    assert(lower_seq(s@) =~= lit@);
    true
}

/// Decimal digits of `n`, most significant first.
pub open spec fn dec_str(n: nat) -> Seq<char>
    decreases n,
{
    let d = digit_char((n % 10) as nat);
    if n < 10 {
        seq![d]
    } else {
        dec_str((n / 10) as nat).push(d)
    }
}

/// The character for one decimal digit.
pub open spec fn digit_char(d: nat) -> char {
    if d == 0 {
        '0'
    } else if d == 1 {
        '1'
    } else if d == 2 {
        '2'
    } else if d == 3 {
        '3'
    } else if d == 4 {
        '4'
    } else if d == 5 {
        '5'
    } else if d == 6 {
        '6'
    } else if d == 7 {
        '7'
    } else if d == 8 {
        '8'
    } else {
        '9'
    }
}

/// The one-character string for a decimal digit.
pub fn digit_str(d: u64) -> (r: &'static str)
    requires
        d < 10,
    ensures
        r@ == seq![digit_char(d as nat)],
{
    let r: &'static str = if d == 0 {
        "0"
    } else if d == 1 {
        "1"
    } else if d == 2 {
        "2"
    } else if d == 3 {
        "3"
    } else if d == 4 {
        "4"
    } else if d == 5 {
        "5"
    } else if d == 6 {
        "6"
    } else if d == 7 {
        "7"
    } else if d == 8 {
        "8"
    } else {
        "9"
    };
    proof {
        reveal_strlit("0");
        reveal_strlit("1");
        reveal_strlit("2");
        reveal_strlit("3");
        reveal_strlit("4");
        reveal_strlit("5");
        reveal_strlit("6");
        reveal_strlit("7");
        reveal_strlit("8");
        reveal_strlit("9");
        assert(r@ =~= seq![digit_char(d as nat)]);
    }
    r
}

/// Render `n` in decimal.
pub fn u64_to_string(n: u64) -> (r: String)
    ensures
        r@ == dec_str(n as nat),
    decreases n,
{
    let ds = digit_str(n % 10);
    if n < 10 {
        ds.to_owned()
    } else {
        let r = u64_to_string(n / 10).concat(ds);
        proof {
            assert(r@ =~= dec_str(n as nat));
        }
        r
    }
}

/// `path` with its extension replaced by `ext`: the last `.` of the final
/// component (not in first position) and what follows are dropped, then a
/// `.` and `ext` are appended.
pub open spec fn with_extension(path: Seq<char>, ext: Seq<char>) -> Seq<char> {
    let name = file_name_of(path);
    let cut = if last_index_of(name, '.') > 0 {
        path.len() - name.len() + last_index_of(name, '.')
    } else {
        path.len() as int
    };
    path.take(cut) + seq!['.'] + ext
}

/// Replace the extension of `path` by `ext`.
pub fn set_extension(path: &str, ext: &str) -> (r: String)
    ensures
        r@ == with_extension(path@, ext@),
{
    let len = path.unicode_len();
    let name = file_name_str(path);
    proof {
        lemma_last_index_of(name@, '.');
        lemma_last_index_of(path@, '/');
    }
    let cut: usize = match find_last(name, '.') {
        Some(i) if i > 0 => len - name.unicode_len() + i,
        _ => len,
    };
    let prefix = path.substring_char(0, cut);
    proof {
        reveal_strlit(".");
        assert(prefix@ =~= path@.take(cut as int));
    }
    let r = prefix.to_owned().concat(".").concat(ext);
    proof {
        assert(r@ =~= with_extension(path@, ext@));
    }
    r
}

} // verus!

use vstd::prelude::*;

verus! {

/// True exactly when the two string slices hold the same characters.
pub fn str_eq(a: &str, b: &str) -> (r: bool)
    ensures
        r == (a@ == b@),
{
    let sa: String = a.to_owned();
    let sb: String = b.to_owned();
    sa == sb
}

/// ASCII-lowercase folding: the free-text search is case-insensitive over
/// the ASCII letters and leaves every other character alone.
pub open spec fn lower_char(c: char) -> char {
    if 65 <= c as u32 && c as u32 <= 90 {
        ((c as u32 + 32) as u8) as char
    } else {
        c
    }
}

/// The needle occurs in the haystack at position `i`, compared
/// case-insensitively over ASCII.
pub open spec fn matches_at(hay: Seq<char>, needle: Seq<char>, i: int) -> bool {
    &&& 0 <= i
    &&& i + needle.len() <= hay.len()
    &&& forall|m: int|
        0 <= m < needle.len() ==> lower_char(#[trigger] hay[i + m]) == lower_char(needle[m])
}

/// The needle occurs somewhere in the haystack, compared case-insensitively
/// over ASCII. An empty needle occurs in every string.
pub open spec fn contains_ci(hay: Seq<char>, needle: Seq<char>) -> bool {
    exists|i: int| matches_at(hay, needle, i)
}

fn lower_char_x(c: char) -> (r: char)
    ensures
        r == lower_char(c),
{
    let u = c as u32;
    if 65 <= u && u <= 90 {
        ((u + 32) as u8) as char
    } else {
        c
    }
}

fn match_at(hay: &str, needle: &str, i: usize, hay_len: usize, needle_len: usize) -> (r: bool)
    requires
        hay_len == hay@.len(),
        needle_len == needle@.len(),
        i + needle_len <= hay_len,
    ensures
        r == matches_at(hay@, needle@, i as int),
{
    let mut m: usize = 0;
    while m < needle_len
        invariant
            0 <= m <= needle_len,
            hay_len == hay@.len(),
            needle_len == needle@.len(),
            i + needle_len <= hay_len,
            forall|q: int|
                0 <= q < m ==> lower_char(#[trigger] hay@[i + q]) == lower_char(needle@[q]),
        decreases needle_len - m,
    {
        let hc = lower_char_x(hay.get_char(i + m));
        let nc = lower_char_x(needle.get_char(m));
        if hc != nc {
            return false;
        }
        m = m + 1;
    }
    true
}

/// Strict lexicographic order on strings, by code point: the order the
/// storage collation gives names (byte order on UTF-8 text agrees with
/// code-point order). A proper prefix comes before its extensions.
pub open spec fn str_lt(a: Seq<char>, b: Seq<char>) -> bool
    decreases a.len(),
{
    if b.len() == 0 {
        false
    } else if a.len() == 0 {
        true
    } else if (a[0] as u32) < (b[0] as u32) {
        true
    } else if (b[0] as u32) < (a[0] as u32) {
        false
    } else {
        str_lt(a.drop_first(), b.drop_first())
    }
}

/// No string comes before itself.
pub proof fn lemma_str_lt_irrefl(a: Seq<char>)
    ensures
        !str_lt(a, a),
    decreases a.len(),
{
    if a.len() == 0 {
    } else {
        lemma_str_lt_irrefl(a.drop_first());
    }
}

/// The string order is transitive.
pub proof fn lemma_str_lt_trans(a: Seq<char>, b: Seq<char>, c: Seq<char>)
    requires
        str_lt(a, b),
        str_lt(b, c),
    ensures
        str_lt(a, c),
    decreases a.len(),
{
    if c.len() == 0 {
    } else if b.len() == 0 {
    } else if a.len() == 0 {
    } else {
        if (a[0] as u32) == (b[0] as u32) && (b[0] as u32) == (c[0] as u32) {
            lemma_str_lt_trans(a.drop_first(), b.drop_first(), c.drop_first());
        }
    }
}

/// True exactly when `a` comes strictly before `b` in code-point order.
pub fn str_lt_x(a: &str, b: &str) -> (r: bool)
    ensures
        r == str_lt(a@, b@),
{
    let la = a.unicode_len();
    let lb = b.unicode_len();
    let mut i: usize = 0;
    proof {
        assert(a@.skip(0) =~= a@);
        assert(b@.skip(0) =~= b@);
    }
    while i < la && i < lb
        invariant
            0 <= i <= la,
            0 <= i <= lb,
            la == a@.len(),
            lb == b@.len(),
            str_lt(a@, b@) == str_lt(a@.skip(i as int), b@.skip(i as int)),
        decreases la - i,
    {
        let ca = a.get_char(i) as u32;
        let cb = b.get_char(i) as u32;
        proof {
            assert(a@.skip(i as int)[0] == a@[i as int]);
            assert(b@.skip(i as int)[0] == b@[i as int]);
            assert(a@.skip(i as int).drop_first() =~= a@.skip(i + 1));
            assert(b@.skip(i as int).drop_first() =~= b@.skip(i + 1));
        }
        if ca < cb {
            return true;
        }
        if cb < ca {
            return false;
        }
        i = i + 1;
    }
    proof {
        if i == la {
            assert(a@.skip(i as int).len() == 0);
        }
        if i == lb {
            assert(b@.skip(i as int).len() == 0);
        }
    }
    la < lb
}

/// Relies on `String::push`: appends the given character to the end of
/// the string.
#[verifier::external_body]
pub fn push_char(s: &mut String, c: char)
    ensures
        final(s)@ == old(s)@.push(c),
{
    s.push(c);
}

/// The decimal digit character for a value below ten.
pub open spec fn digit_char(d: int) -> char {
    ((48 + d) as u8) as char
}

fn digit_char_x(d: u32) -> (r: char)
    requires
        d < 10,
    ensures
        r == digit_char(d as int),
{
    ((48 + d) as u8) as char
}

/// A calendar period formatted as `YYYY-MM`.
pub open spec fn period_label_chars(year: int, month: int) -> Seq<char> {
    seq![
        digit_char(year / 1000 % 10),
        digit_char(year / 100 % 10),
        digit_char(year / 10 % 10),
        digit_char(year % 10),
        '-',
        digit_char(month / 10 % 10),
        digit_char(month % 10),
    ]
}

/// Formats a calendar period as `YYYY-MM`.
pub fn period_label(year: u32, month: u32) -> (r: String)
    requires
        year <= 9999,
        month <= 12,
    ensures
        r@ == period_label_chars(year as int, month as int),
{
    let mut s = String::new();
    push_char(&mut s, digit_char_x(year / 1000 % 10));
    push_char(&mut s, digit_char_x(year / 100 % 10));
    push_char(&mut s, digit_char_x(year / 10 % 10));
    push_char(&mut s, digit_char_x(year % 10));
    push_char(&mut s, '-');
    push_char(&mut s, digit_char_x(month / 10 % 10));
    push_char(&mut s, digit_char_x(month % 10));
    proof {
        assert(s@ =~= period_label_chars(year as int, month as int));
    }
    s
}

/// True exactly when the needle occurs in the haystack, compared
/// case-insensitively over ASCII.
pub fn str_contains_ci(hay: &str, needle: &str) -> (r: bool)
    ensures
        r == contains_ci(hay@, needle@),
{
    let hay_len = hay.unicode_len();
    let needle_len = needle.unicode_len();
    if needle_len > hay_len {
        proof {
            assert forall|i: int| !matches_at(hay@, needle@, i) by {}
        }
        return false;
    }
    let mut i: usize = 0;
    while i <= hay_len - needle_len
        invariant
            0 <= i,
            i <= hay_len - needle_len + 1,
            needle_len <= hay_len,
            hay_len == hay@.len(),
            needle_len == needle@.len(),
            forall|m: int| 0 <= m < i ==> !matches_at(hay@, needle@, m),
        decreases hay_len - i,
    {
        if match_at(hay, needle, i, hay_len, needle_len) {
            return true;
        }
        i = i + 1;
    }
    proof {
        assert forall|m: int| !matches_at(hay@, needle@, m) by {
            if 0 <= m < i {
            }
        }
    }
    false
}

} // verus!

//! Verified text utilities: lexicographic order on character sequences,
//! whitespace trimming, ASCII case folding, and decimal conversion.
use vstd::prelude::*;

verus! {

/// Strict lexicographic order on character sequences, by code point.
pub open spec fn lex_lt(a: Seq<char>, b: Seq<char>) -> bool
    decreases a.len(),
{
    if b.len() == 0 {
        false
    } else if a.len() == 0 {
        true
    } else if (a[0] as u32) < (b[0] as u32) {
        true
    } else if a[0] == b[0] {
        lex_lt(a.drop_first(), b.drop_first())
    } else {
        false
    }
}

/// Compare two strings in lexicographic order by code point.
pub fn str_lt(a: &str, b: &str) -> (r: bool)
    ensures
        r == lex_lt(a@, b@),
    decreases a@.len(),
{
    let alen = a.unicode_len();
    let blen = b.unicode_len();
    if blen == 0 {
        false
    } else if alen == 0 {
        true
    } else {
        let ca = a.get_char(0);
        let cb = b.get_char(0);
        if (ca as u32) < (cb as u32) {
            true
        } else if ca == cb {
            let ra = a.substring_char(1, alen);
            let rb = b.substring_char(1, blen);
            proof {
                assert(ra@ =~= a@.drop_first());
                assert(rb@ =~= b@.drop_first());
            }
            str_lt(ra, rb)
        } else {
            false
        }
    }
}

/// Equality of two strings as character sequences.
pub fn str_eq(a: &str, b: &str) -> (r: bool)
    ensures
        r == (a@ == b@),
    decreases a@.len(),
{
    let alen = a.unicode_len();
    let blen = b.unicode_len();
    if alen != blen {
        proof {
            assert(a@.len() != b@.len());
        }
        false
    } else if alen == 0 {
        proof {
            assert(a@ =~= b@);
        }
        true
    } else {
        let ca = a.get_char(0);
        let cb = b.get_char(0);
        if ca == cb {
            let ra = a.substring_char(1, alen);
            let rb = b.substring_char(1, blen);
            proof {
                assert(ra@ =~= a@.drop_first());
                assert(rb@ =~= b@.drop_first());
            }
            let r = str_eq(ra, rb);
            proof {
                if ra@ == rb@ {
                    assert(a@ =~= seq![a@[0]] + ra@);
                    assert(b@ =~= seq![b@[0]] + rb@);
                }
            }
            r
        } else {
            false
        }
    }
}

/// The lexicographic order is total: of two distinct sequences one is
/// strictly smaller.
pub proof fn lemma_lex_total(a: Seq<char>, b: Seq<char>)
    ensures
        lex_lt(a, b) || lex_lt(b, a) || a == b,
    decreases a.len(),
{
    if a.len() > 0 && b.len() > 0 {
        if a[0] != b[0] {
            assert(a[0] as u32 != b[0] as u32) by {
                vstd::utf8::char_u32_cast(a[0], a[0] as u32);
                vstd::utf8::char_u32_cast(b[0], b[0] as u32);
            };
        }
        if a[0] == b[0] {
            lemma_lex_total(a.drop_first(), b.drop_first());
            if a.drop_first() == b.drop_first() {
                assert(a.drop_first().len() == a.len() - 1);
                assert(b.drop_first().len() == b.len() - 1);
                assert(a.len() == b.len());
                assert forall|i: int| 0 <= i < a.len() implies a[i] == b[i] by {
                    if i > 0 {
                        assert(a[i] == a.drop_first()[i - 1]);
                        assert(b[i] == b.drop_first()[i - 1]);
                    }
                };
                assert(a =~= b);
            }
        }
    } else if a.len() == 0 && b.len() == 0 {
        assert(a =~= b);
    }
}

/// The lexicographic order is irreflexive and asymmetric.
pub proof fn lemma_lex_asym(a: Seq<char>, b: Seq<char>)
    ensures
        !(lex_lt(a, b) && lex_lt(b, a)),
        !lex_lt(a, a),
    decreases a.len(),
{
    if a.len() > 0 && b.len() > 0 && a[0] == b[0] {
        lemma_lex_asym(a.drop_first(), b.drop_first());
    }
    if a.len() > 0 && lex_lt(a, a) {
        lemma_lex_asym(a.drop_first(), a.drop_first());
    }
}

/// The lexicographic order is transitive.
pub proof fn lemma_lex_trans(a: Seq<char>, b: Seq<char>, c: Seq<char>)
    requires
        lex_lt(a, b),
        lex_lt(b, c),
    ensures
        lex_lt(a, c),
    decreases a.len(),
{
    if b.len() > 0 && c.len() > 0 && a.len() > 0 {
        if a[0] == b[0] && b[0] == c[0] {
            lemma_lex_trans(a.drop_first(), b.drop_first(), c.drop_first());
        }
    }
}

/// Whether `p` is a prefix of `s`.
pub open spec fn has_prefix(s: Seq<char>, p: Seq<char>) -> bool {
    p.len() <= s.len() && s.subrange(0, p.len() as int) == p
}

/// Check whether `p` is a prefix of `s`.
pub fn str_has_prefix(s: &str, p: &str) -> (r: bool)
    ensures
        r == has_prefix(s@, p@),
{
    let slen = s.unicode_len();
    let plen = p.unicode_len();
    if plen > slen {
        false
    } else {
        let head = s.substring_char(0, plen);
        str_eq(head, p)
    }
}

/// Whitespace recognized by trimming: space, tab, carriage return, newline.
pub open spec fn is_space_char(c: char) -> bool {
    c == ' ' || c == '\t' || c == '\r' || c == '\n'
}

/// Drop leading whitespace.
pub open spec fn trim_front(s: Seq<char>) -> Seq<char>
    decreases s.len(),
{
    if s.len() > 0 && is_space_char(s[0]) {
        trim_front(s.drop_first())
    } else {
        s
    }
}

/// Drop trailing whitespace.
pub open spec fn trim_back(s: Seq<char>) -> Seq<char>
    decreases s.len(),
{
    if s.len() > 0 && is_space_char(s[s.len() - 1]) {
        trim_back(s.drop_last())
    } else {
        s
    }
}

/// Drop leading and trailing whitespace.
pub open spec fn spec_trim(s: Seq<char>) -> Seq<char> {
    trim_back(trim_front(s))
}

fn trim_front_str(s: &str) -> (r: String)
    ensures
        r@ == trim_front(s@),
    decreases s@.len(),
{
    let len = s.unicode_len();
    if len > 0 {
        let c = s.get_char(0);
        if c == ' ' || c == '\t' || c == '\r' || c == '\n' {
            let rest = s.substring_char(1, len);
            proof {
                assert(rest@ =~= s@.drop_first());
            }
            trim_front_str(rest)
        } else {
            s.to_owned()
        }
    } else {
        s.to_owned()
    }
}

fn trim_back_str(s: &str) -> (r: String)
    ensures
        r@ == trim_back(s@),
    decreases s@.len(),
{
    let len = s.unicode_len();
    if len > 0 {
        let c = s.get_char(len - 1);
        if c == ' ' || c == '\t' || c == '\r' || c == '\n' {
            let rest = s.substring_char(0, len - 1);
            proof {
                assert(rest@ =~= s@.drop_last());
            }
            trim_back_str(rest)
        } else {
            s.to_owned()
        }
    } else {
        s.to_owned()
    }
}

/// Trim leading and trailing whitespace from a string.
pub fn trim_str(s: &str) -> (r: String)
    ensures
        r@ == spec_trim(s@),
{
    let front = trim_front_str(s);
    trim_back_str(front.as_str())
}

/// ASCII case folding of a single character: uppercase letters map to
/// lowercase, everything else is unchanged.
pub open spec fn spec_lower_char(c: char) -> char {
    if 65 <= c as u32 && c as u32 <= 90 {
        ((c as u32 + 32) as u8) as char
    } else {
        c
    }
}

/// ASCII case folding of a character sequence.
pub open spec fn spec_lower(s: Seq<char>) -> Seq<char>
    decreases s.len(),
{
    if s.len() == 0 {
        Seq::<char>::empty()
    } else {
        seq![spec_lower_char(s[0])] + spec_lower(s.drop_first())
    }
}

fn lower_char(c: char) -> (r: char)
    ensures
        r == spec_lower_char(c),
{
    let u = c as u32;
    if 65 <= u && u <= 90 {
        ((u + 32) as u8) as char
    } else {
        c
    }
}

fn lower_letter_str(c: char) -> (r: &'static str)
    requires
        65 <= c as u32 && c as u32 <= 90,
    ensures
        r@ =~= seq![spec_lower_char(c)],
{
    let u = c as u32;
    let r: &'static str = if u == 65 {
        "a"
    } else if u == 66 {
        "b"
    } else if u == 67 {
        "c"
    } else if u == 68 {
        "d"
    } else if u == 69 {
        "e"
    } else if u == 70 {
        "f"
    } else if u == 71 {
        "g"
    } else if u == 72 {
        "h"
    } else if u == 73 {
        "i"
    } else if u == 74 {
        "j"
    } else if u == 75 {
        "k"
    } else if u == 76 {
        "l"
    } else if u == 77 {
        "m"
    } else if u == 78 {
        "n"
    } else if u == 79 {
        "o"
    } else if u == 80 {
        "p"
    } else if u == 81 {
        "q"
    } else if u == 82 {
        "r"
    } else if u == 83 {
        "s"
    } else if u == 84 {
        "t"
    } else if u == 85 {
        "u"
    } else if u == 86 {
        "v"
    } else if u == 87 {
        "w"
    } else if u == 88 {
        "x"
    } else if u == 89 {
        "y"
    } else {
        "z"
    };
    proof {
        reveal_strlit("a");
        reveal_strlit("b");
        reveal_strlit("c");
        reveal_strlit("d");
        reveal_strlit("e");
        reveal_strlit("f");
        reveal_strlit("g");
        reveal_strlit("h");
        reveal_strlit("i");
        reveal_strlit("j");
        reveal_strlit("k");
        reveal_strlit("l");
        reveal_strlit("m");
        reveal_strlit("n");
        reveal_strlit("o");
        reveal_strlit("p");
        reveal_strlit("q");
        reveal_strlit("r");
        reveal_strlit("s");
        reveal_strlit("t");
        reveal_strlit("u");
        reveal_strlit("v");
        reveal_strlit("w");
        reveal_strlit("x");
        reveal_strlit("y");
        reveal_strlit("z");
    }
    r
}

/// ASCII-lowercase a string.
pub fn lower_str(s: &str) -> (r: String)
    ensures
        r@ == spec_lower(s@),
    decreases s@.len(),
{
    let len = s.unicode_len();
    if len == 0 {
        proof {
            assert(spec_lower(s@) =~= Seq::<char>::empty());
        }
        String::new()
    } else {
        let c0 = s.get_char(0);
        let rest = s.substring_char(1, len);
        proof {
            assert(rest@ =~= s@.drop_first());
        }
        let tail = lower_str(rest);
        let u = c0 as u32;
        if 65 <= u && u <= 90 {
            let mut r = lower_letter_str(c0).to_owned();
            r.append(tail.as_str());
            proof {
                assert(r@ =~= seq![spec_lower_char(s@[0])] + spec_lower(s@.drop_first()));
            }
            r
        } else {
            let head = s.substring_char(0, 1);
            proof {
                assert(head@ =~= seq![s@[0]]);
                assert(spec_lower_char(s@[0]) == s@[0]);
            }
            let mut r = head.to_owned();
            r.append(tail.as_str());
            proof {
                assert(r@ =~= seq![spec_lower_char(s@[0])] + spec_lower(s@.drop_first()));
            }
            r
        }
    }
}

/// Decimal digits of `n`, most significant first.
pub open spec fn dec_chars(n: nat) -> Seq<char>
    decreases n,
{
    if n < 10 {
        seq![((48 + n) as u8) as char]
    } else {
        dec_chars(n / 10) + seq![((48 + n % 10) as u8) as char]
    }
}

fn digit_str(d: u64) -> (r: &'static str)
    requires
        d < 10,
    ensures
        r@ =~= seq![((48 + d) as u8) as char],
        r.is_ascii(),
{
    let r: &'static str = if d == 0 {
        "0"
    } else if d == 1 {
        "1"
    } else if d == 2 {
        "2"
    } else if d == 3 {
        "3"
    } else if d == 4 {
        "4"
    } else if d == 5 {
        "5"
    } else if d == 6 {
        "6"
    } else if d == 7 {
        "7"
    } else if d == 8 {
        "8"
    } else {
        "9"
    };
    proof {
        reveal_strlit("0");
        reveal_strlit("1");
        reveal_strlit("2");
        reveal_strlit("3");
        reveal_strlit("4");
        reveal_strlit("5");
        reveal_strlit("6");
        reveal_strlit("7");
        reveal_strlit("8");
        reveal_strlit("9");
    }
    r
}

/// Render `n` in decimal.
pub fn dec_string(n: u64) -> (r: String)
    ensures
        r@ == dec_chars(n as nat),
    decreases n,
{
    if n < 10 {
        digit_str(n).to_owned()
    } else {
        let mut r = dec_string(n / 10);
        r.append(digit_str(n % 10));
        r
    }
}

/// Whether `c` is a decimal digit.
pub open spec fn is_digit_char(c: char) -> bool {
    48 <= c as u32 && c as u32 <= 57
}

/// Whether every character of `s` is a decimal digit, and there is at least one.
pub open spec fn all_digits(s: Seq<char>) -> bool {
    s.len() > 0 && forall|i: int| 0 <= i < s.len() ==> is_digit_char(#[trigger] s[i])
}

/// The numeric value of a digit sequence, most significant first.
pub open spec fn dec_value(s: Seq<char>) -> int
    decreases s.len(),
{
    if s.len() == 0 {
        0
    } else {
        dec_value(s.drop_last()) * 10 + (s[s.len() - 1] as u32 - 48)
    }
}

/// Parse a decimal number. Returns `None` when `s` is empty, holds a
/// non-digit, or the value does not fit in `u64`.
pub fn parse_decimal(s: &str) -> (r: Option<u64>)
    ensures
        match r {
            Some(v) => all_digits(s@) && v == dec_value(s@),
            None => !all_digits(s@) || dec_value(s@) > u64::MAX,
        },
{
    let len = s.unicode_len();
    if len == 0 {
        return None;
    }
    let mut acc: u64 = 0;
    let mut i: usize = 0;
    while i < len
        invariant
            0 < len == s@.len(),
            0 <= i <= len,
            forall|k: int| 0 <= k < i ==> is_digit_char(#[trigger] s@[k]),
            acc == dec_value(s@.subrange(0, i as int)),
        decreases len - i,
    {
        let c = s.get_char(i);
        let u = c as u32;
        if u < 48 || u > 57 {
            assert(!is_digit_char(s@[i as int]));
            return None;
        }
        let d: u64 = (u - 48) as u64;
        if acc > (u64::MAX - d) / 10 {
            proof {
                assert(s@.subrange(0, i + 1).drop_last() =~= s@.subrange(0, i as int));
                assert(dec_value(s@.subrange(0, i + 1)) > u64::MAX);
                lemma_dec_value_overflow(s@, i + 1);
            }
            return None;
        }
        acc = acc * 10 + d;
        proof {
            assert(s@.subrange(0, i + 1).drop_last() =~= s@.subrange(0, i as int));
        }
        i = i + 1;
    }
    proof {
        assert(s@.subrange(0, len as int) =~= s@);
    }
    Some(acc)
}

/// Index of the first occurrence of `sep` in `s`, or -1 if absent.
pub open spec fn find_char(s: Seq<char>, sep: char) -> int
    decreases s.len(),
{
    if s.len() == 0 {
        -1
    } else if s[0] == sep {
        0
    } else if find_char(s.drop_first(), sep) == -1 {
        -1
    } else {
        find_char(s.drop_first(), sep) + 1
    }
}

/// The recursive `find_char` agrees with an index-based first occurrence.
pub proof fn lemma_find_char_at(s: Seq<char>, sep: char, k: int)
    requires
        0 <= k <= s.len(),
        forall|j: int| 0 <= j < k ==> s[j] != sep,
        k == s.len() || s[k] == sep,
    ensures
        find_char(s, sep) == if k == s.len() { -1int } else { k },
    decreases s.len(),
{
    if s.len() > 0 && s[0] != sep {
        lemma_find_char_at(s.drop_first(), sep, k - 1);
    }
}

/// Index of the last occurrence of `sep` in `s`, or -1 if absent.
pub open spec fn rfind_char(s: Seq<char>, sep: char) -> int
    decreases s.len(),
{
    if s.len() == 0 {
        -1
    } else if s[s.len() - 1] == sep {
        s.len() - 1
    } else {
        rfind_char(s.drop_last(), sep)
    }
}

/// The recursive `rfind_char` agrees with an index-based last occurrence.
pub proof fn lemma_rfind_char_at(s: Seq<char>, sep: char, k: int)
    requires
        -1 <= k < s.len(),
        k >= 0 ==> s[k] == sep,
        forall|j: int| k < j < s.len() ==> s[j] != sep,
    ensures
        rfind_char(s, sep) == k,
    decreases s.len(),
{
    if s.len() > 0 && s[s.len() - 1] != sep {
        lemma_rfind_char_at(s.drop_last(), sep, k);
    }
}

/// Find the last `sep` in `s`.
pub fn rfind_char_str(s: &str, sep: char) -> (r: Option<usize>)
    ensures
        match r {
            Some(i) => i < s@.len() && s@[i as int] == sep && rfind_char(s@, sep) == i,
            None => rfind_char(s@, sep) == -1,
        },
{
    let len = s.unicode_len();
    let mut i: usize = len;
    while i > 0
        invariant
            0 <= i <= len == s@.len(),
            forall|j: int| i <= j < s@.len() ==> s@[j] != sep,
        decreases i,
    {
        i = i - 1;
        if s.get_char(i) == sep {
            proof {
                lemma_rfind_char_at(s@, sep, i as int);
            }
            return Some(i);
        }
    }
    proof {
        lemma_rfind_char_at(s@, sep, -1);
    }
    None
}

/// Split `s` at every occurrence of `sep`; a sequence with no separator
/// yields one segment.
pub open spec fn spec_split(s: Seq<char>, sep: char) -> Seq<Seq<char>>
    decreases s.len(),
{
    let i = find_char(s, sep);
    if i == -1 {
        seq![s]
    } else if 0 <= i < s.len() {
        seq![s.subrange(0, i)] + spec_split(s.subrange(i + 1, s.len() as int), sep)
    } else {
        seq![s]
    }
}

/// Find the first `sep` in `s` at or after position `from`.
fn find_char_str(s: &str, sep: char, from: usize) -> (r: Option<usize>)
    requires
        from <= s@.len(),
    ensures
        match r {
            Some(i) => from <= i < s@.len() && s@[i as int] == sep && forall|j: int|
                from <= j < i ==> s@[j] != sep,
            None => forall|j: int| from <= j < s@.len() ==> s@[j] != sep,
        },
{
    let len = s.unicode_len();
    let mut i: usize = from;
    while i < len
        invariant
            from <= i <= len == s@.len(),
            forall|j: int| from <= j < i ==> s@[j] != sep,
        decreases len - i,
    {
        if s.get_char(i) == sep {
            return Some(i);
        }
        i = i + 1;
    }
    None
}

/// Split a string at every occurrence of `sep`.
pub fn split_str(s: &str, sep: char) -> (r: Vec<String>)
    ensures
        r@.map_values(|t: String| t@) == spec_split(s@, sep),
    decreases s@.len(),
{
    let len = s.unicode_len();
    match find_char_str(s, sep, 0) {
        None => {
            proof {
                lemma_find_char_at(s@, sep, s@.len() as int);
            }
            let mut r: Vec<String> = Vec::new();
            r.push(s.to_owned());
            proof {
                assert(r@.map_values(|t: String| t@) =~= spec_split(s@, sep));
            }
            r
        },
        Some(i) => {
            proof {
                lemma_find_char_at(s@, sep, i as int);
            }
            let head = s.substring_char(0, i);
            let rest = s.substring_char(i + 1, len);
            let tail = split_str(rest, sep);
            let mut r: Vec<String> = Vec::new();
            r.push(head.to_owned());
            let mut k: usize = 0;
            while k < tail.len()
                invariant
                    0 <= k <= tail@.len(),
                    r@.len() == k + 1,
                    r@[0]@ == s@.subrange(0, i as int),
                    forall|j: int| 0 <= j < k ==> r@[j + 1]@ == #[trigger] tail@[j]@,
                decreases tail@.len() - k,
            {
                let item = tail[k].clone();
                r.push(item);
                k = k + 1;
            }
            proof {
                assert(r@.map_values(|t: String| t@) =~= spec_split(s@, sep));
            }
            r
        },
    }
}

/// One text line: a split segment with a trailing carriage return removed.
pub open spec fn strip_cr(s: Seq<char>) -> Seq<char> {
    if s.len() > 0 && s[s.len() - 1] == '\r' {
        s.drop_last()
    } else {
        s
    }
}

/// The lines of `s`: split at every newline, drop a final empty segment
/// (a trailing newline ends the last line rather than opening a new one),
/// and strip a trailing carriage return from each line.
pub open spec fn spec_lines(s: Seq<char>) -> Seq<Seq<char>> {
    if s.len() == 0 {
        Seq::<Seq<char>>::empty()
    } else {
        let parts = spec_split(s, '\n');
        let kept = if parts.last().len() == 0 {
            parts.drop_last()
        } else {
            parts
        };
        kept.map_values(|p: Seq<char>| strip_cr(p))
    }
}

/// Split a string into lines.
pub fn split_lines(s: &str) -> (r: Vec<String>)
    ensures
        r@.map_values(|t: String| t@) == spec_lines(s@),
{
    let len = s.unicode_len();
    if len == 0 {
        let r: Vec<String> = Vec::new();
        proof {
            assert(r@.map_values(|t: String| t@) =~= spec_lines(s@));
        }
        return r;
    }
    let mut parts = split_str(s, '\n');
    let ghost parts0 = spec_split(s@, '\n');
    let ghost kept = if parts0.last().len() == 0 {
        parts0.drop_last()
    } else {
        parts0
    };
    proof {
        assert(parts@.map_values(|t: String| t@) == parts0);
        assert(parts0.len() > 0);
        assert(parts@.len() == parts0.len());
        assert(parts@.last()@ == parts0.last());
    }
    if parts[parts.len() - 1].as_str().unicode_len() == 0 {
        let _last = parts.pop();
        proof {
            assert(parts@.map_values(|t: String| t@) =~= kept);
        }
    } else {
        proof {
            assert(parts@.map_values(|t: String| t@) =~= kept);
        }
    }
    let mut r: Vec<String> = Vec::new();
    let mut k: usize = 0;
    while k < parts.len()
        invariant
            0 <= k <= parts@.len(),
            r@.len() == k,
            forall|j: int| 0 <= j < k ==> r@[j]@ == strip_cr(#[trigger] parts@[j]@),
        decreases parts@.len() - k,
    {
        let p = &parts[k];
        let plen = p.as_str().unicode_len();
        if plen > 0 && p.as_str().get_char(plen - 1) == '\r' {
            let stripped = p.as_str().substring_char(0, plen - 1);
            proof {
                assert(stripped@ =~= parts@[k as int]@.drop_last());
            }
            r.push(stripped.to_owned());
        } else {
            let whole = parts[k].clone();
            r.push(whole);
        }
        k = k + 1;
    }
    proof {
        assert(r@.map_values(|t: String| t@) =~= spec_lines(s@));
    }
    r
}

/// The sequences of `parts` joined with `sep` between consecutive parts.
pub open spec fn spec_join(parts: Seq<Seq<char>>, sep: Seq<char>) -> Seq<char>
    decreases parts.len(),
{
    if parts.len() == 0 {
        Seq::<char>::empty()
    } else if parts.len() == 1 {
        parts[0]
    } else {
        parts[0] + sep + spec_join(parts.drop_first(), sep)
    }
}

/// Join strings with a newline between consecutive elements.
pub fn join_newline(parts: &Vec<String>) -> (r: String)
    ensures
        r@ == spec_join(parts@.map_values(|t: String| t@), "\n"@),
{
    let r = join_newline_from(parts, 0);
    proof {
        let mapped = parts@.map_values(|t: String| t@);
        assert(mapped.subrange(0, parts@.len() as int) =~= mapped);
    }
    r
}

fn join_newline_from(parts: &Vec<String>, from: usize) -> (r: String)
    requires
        from <= parts@.len(),
    ensures
        r@ == spec_join(parts@.map_values(|t: String| t@).subrange(
            from as int,
            parts@.len() as int,
        ), "\n"@),
    decreases parts@.len() - from,
{
    let ghost mapped = parts@.map_values(|t: String| t@);
    if from == parts.len() {
        proof {
            assert(mapped.subrange(from as int, parts@.len() as int) =~= Seq::<Seq<char>>::empty());
        }
        String::new()
    } else if from == parts.len() - 1 {
        proof {
            assert(mapped.subrange(from as int, parts@.len() as int) =~= seq![mapped[from as int]]);
        }
        parts[from].clone()
    } else {
        let mut r = parts[from].clone();
        r.append("\n");
        let tail = join_newline_from(parts, from + 1);
        r.append(tail.as_str());
        proof {
            let sub = mapped.subrange(from as int, parts@.len() as int);
            assert(sub.drop_first() =~= mapped.subrange(from + 1, parts@.len() as int));
            assert(sub.len() >= 2);
            assert(sub[0] == mapped[from as int]);
            assert(r@ == sub[0] + "\n"@ + spec_join(sub.drop_first(), "\n"@));
        }
        r
    }
}

proof fn lemma_dec_value_overflow(s: Seq<char>, j: int)
    requires
        0 <= j <= s.len(),
        dec_value(s.subrange(0, j)) > u64::MAX,
    ensures
        dec_value(s) > u64::MAX,
    decreases s.len() - j,
{
    if j == s.len() {
        assert(s.subrange(0, j) =~= s);
    } else {
        assert(s.subrange(0, j + 1).drop_last() =~= s.subrange(0, j));
        assert(dec_value(s.subrange(0, j + 1)) == dec_value(s.subrange(0, j)) * 10 + (s.subrange(
            0,
            j + 1,
        )[j] as u32 - 48));
        assert(dec_value(s.subrange(0, j + 1)) > u64::MAX);
        lemma_dec_value_overflow(s, j + 1);
    }
}

} // verus!

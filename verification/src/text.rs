//! Text helpers the configuration overlay and the monitor share: whitespace
//! trimming, splitting, case-insensitive comparison, decimal number parsing
//! and backslash unescaping, each verified against a character-sequence
//! specification.

use vstd::prelude::*;
use vstd::string::StrSliceExecFns;

verus! {

/// Whether a character has the Unicode white-space property, as the standard
/// library's trim and whitespace splitting use it.
pub open spec fn spec_is_ws(c: char) -> bool {
    ||| (0x09 <= c as u32 <= 0x0d)
    ||| c as u32 == 0x20
    ||| c as u32 == 0x85
    ||| c as u32 == 0xa0
    ||| c as u32 == 0x1680
    ||| (0x2000 <= c as u32 <= 0x200a)
    ||| c as u32 == 0x2028
    ||| c as u32 == 0x2029
    ||| c as u32 == 0x202f
    ||| c as u32 == 0x205f
    ||| c as u32 == 0x3000
}

/// Whether a character has the Unicode white-space property.
pub fn is_ws(c: char) -> (r: bool)
    ensures
        r == spec_is_ws(c),
{
    let n = c as u32;
    (0x09 <= n && n <= 0x0d) || n == 0x20 || n == 0x85 || n == 0xa0 || n == 0x1680
        || (0x2000 <= n && n <= 0x200a) || n == 0x2028 || n == 0x2029 || n == 0x202f
        || n == 0x205f || n == 0x3000
}

/// The text without its leading white space.
pub open spec fn spec_trim_start(s: Seq<char>) -> Seq<char>
    decreases s.len(),
{
    if s.len() > 0 && spec_is_ws(s[0]) {
        spec_trim_start(s.skip(1))
    } else {
        s
    }
}

/// The text without its trailing white space.
pub open spec fn spec_trim_end(s: Seq<char>) -> Seq<char>
    decreases s.len(),
{
    if s.len() > 0 && spec_is_ws(s.last()) {
        spec_trim_end(s.drop_last())
    } else {
        s
    }
}

/// The text without leading and trailing white space.
pub open spec fn spec_trim(s: Seq<char>) -> Seq<char> {
    spec_trim_end(spec_trim_start(s))
}

/// Trimming never lengthens the text.
pub proof fn lemma_trim_le(s: Seq<char>)
    ensures
        spec_trim(s).len() <= s.len(),
{
    lemma_trim_start_le(s);
    lemma_trim_end_le(spec_trim_start(s));
}

proof fn lemma_trim_start_le(s: Seq<char>)
    ensures
        spec_trim_start(s).len() <= s.len(),
    decreases s.len(),
{
    if s.len() > 0 && spec_is_ws(s[0]) {
        lemma_trim_start_le(s.skip(1));
    }
}

proof fn lemma_trim_end_le(s: Seq<char>)
    ensures
        spec_trim_end(s).len() <= s.len(),
    decreases s.len(),
{
    if s.len() > 0 && spec_is_ws(s.last()) {
        lemma_trim_end_le(s.drop_last());
    }
}

/// The characters of a text, in order.
pub fn str_chars(s: &str) -> (r: Vec<char>)
    ensures
        r@ == s@,
{
    let n = s.unicode_len();
    let mut r: Vec<char> = Vec::new();
    let mut i: usize = 0;
    while i < n
        invariant
            0 <= i <= n,
            n == s@.len(),
            r@ =~= s@.subrange(0, i as int),
        decreases n - i,
    {
        r.push(s.get_char(i));
        i = i + 1;
    }
    assert(r@ =~= s@);
    r
}

/// Relies on String::push: appends exactly the one character.
#[verifier::external_body]
fn push_char(s: &mut String, c: char)
    ensures
        final(s)@ == old(s)@.push(c),
{
    s.push(c);
}

/// The text made of the given characters, in order.
pub fn chars_string(v: &Vec<char>) -> (r: String)
    ensures
        r@ == v@,
{
    let mut r = String::new();
    let mut i: usize = 0;
    while i < v.len()
        invariant
            0 <= i <= v@.len(),
            r@ =~= v@.subrange(0, i as int),
        decreases v@.len() - i,
    {
        push_char(&mut r, v[i]);
        assert(r@ =~= v@.subrange(0, i + 1 as int));
        i = i + 1;
    }
    assert(r@ =~= v@);
    r
}

/// The characters without leading and trailing white space.
pub fn trim_chars(v: &Vec<char>) -> (r: Vec<char>)
    ensures
        r@ == spec_trim(v@),
{
    let mut start: usize = 0;
    assert(v@.skip(0) =~= v@);
    while start < v.len() && is_ws(v[start])
        invariant
            0 <= start <= v@.len(),
            spec_trim_start(v@) == spec_trim_start(v@.skip(start as int)),
        decreases v@.len() - start,
    {
        proof {
            assert(v@.skip(start as int).skip(1) =~= v@.skip(start + 1 as int));
        }
        start = start + 1;
    }
    let ghost st = v@.skip(start as int);
    assert(spec_trim_start(v@) == st);
    let mut end: usize = v.len();
    while end > start && is_ws(v[end - 1])
        invariant
            start <= end <= v@.len(),
            spec_trim_end(st) == spec_trim_end(v@.subrange(start as int, end as int)),
        decreases end,
    {
        proof {
            let cur = v@.subrange(start as int, end as int);
            assert(cur.last() == v@[end - 1]);
            assert(cur.drop_last() =~= v@.subrange(start as int, end - 1 as int));
        }
        end = end - 1;
    }
    proof {
        let cur = v@.subrange(start as int, end as int);
        if end > start {
            assert(cur.last() == v@[end - 1]);
        }
        assert(spec_trim_end(cur) == cur);
    }
    let mut r: Vec<char> = Vec::new();
    let mut i: usize = start;
    while i < end
        invariant
            start <= i <= end <= v@.len(),
            r@ =~= v@.subrange(start as int, i as int),
        decreases end - i,
    {
        r.push(v[i]);
        i = i + 1;
    }
    assert(r@ =~= v@.subrange(start as int, end as int));
    r
}

/// A copy of the characters in the index range.
pub fn subvec(v: &Vec<char>, from: usize, to: usize) -> (r: Vec<char>)
    requires
        from <= to <= v@.len(),
    ensures
        r@ == v@.subrange(from as int, to as int),
{
    let mut r: Vec<char> = Vec::new();
    let mut i: usize = from;
    while i < to
        invariant
            from <= i <= to <= v@.len(),
            r@ =~= v@.subrange(from as int, i as int),
        decreases to - i,
    {
        r.push(v[i]);
        i = i + 1;
    }
    assert(r@ =~= v@.subrange(from as int, to as int));
    r
}

/// Whether the text holds the character anywhere.
pub open spec fn spec_contains(s: Seq<char>, c: char) -> bool {
    exists|i: int| 0 <= i < s.len() && s[i] == c
}

/// Whether the characters hold `c` anywhere.
pub fn contains_char(v: &Vec<char>, c: char) -> (r: bool)
    ensures
        r == spec_contains(v@, c),
{
    let mut i: usize = 0;
    while i < v.len()
        invariant
            0 <= i <= v@.len(),
            forall|j: int| 0 <= j < i ==> v@[j] != c,
        decreases v@.len() - i,
    {
        if v[i] == c {
            return true;
        }
        i = i + 1;
    }
    false
}

/// The lower-case code point of an ASCII letter; anything else unchanged.
pub open spec fn spec_lower_u32(c: char) -> u32 {
    if 65 <= c as u32 <= 90 {
        (c as u32 + 32) as u32
    } else {
        c as u32
    }
}

/// Whether two texts are equal up to ASCII case.
pub open spec fn spec_eq_ignore_ascii_case(a: Seq<char>, b: Seq<char>) -> bool {
    a.len() == b.len() && (forall|i: int| 0 <= i < a.len()
        ==> spec_lower_u32(a[i]) == spec_lower_u32(b[i]))
}

/// Whether the characters equal the text up to ASCII case.
pub fn eq_ignore_ascii_case(a: &Vec<char>, b: &str) -> (r: bool)
    ensures
        r == spec_eq_ignore_ascii_case(a@, b@),
{
    let n = b.unicode_len();
    if a.len() != n {
        return false;
    }
    let mut i: usize = 0;
    while i < n
        invariant
            0 <= i <= n,
            n == a@.len() == b@.len(),
            forall|j: int| 0 <= j < i ==> spec_lower_u32(a@[j]) == spec_lower_u32(b@[j]),
        decreases n - i,
    {
        let ca = a[i] as u32;
        let cb = b.get_char(i) as u32;
        let la = if 65 <= ca && ca <= 90 { ca + 32 } else { ca };
        let lb = if 65 <= cb && cb <= 90 { cb + 32 } else { cb };
        if la != lb {
            return false;
        }
        i = i + 1;
    }
    true
}

/// Whether the text starts with the prefix.
pub open spec fn spec_starts_with(s: Seq<char>, p: Seq<char>) -> bool {
    s.len() >= p.len() && s.subrange(0, p.len() as int) == p
}

/// Whether the characters start with the prefix.
pub fn starts_with(v: &Vec<char>, p: &str) -> (r: bool)
    ensures
        r == spec_starts_with(v@, p@),
{
    let n = p.unicode_len();
    if v.len() < n {
        assert(!spec_starts_with(v@, p@));
        return false;
    }
    let mut i: usize = 0;
    while i < n
        invariant
            0 <= i <= n,
            n == p@.len() <= v@.len(),
            forall|j: int| 0 <= j < i ==> v@[j] == p@[j],
        decreases n - i,
    {
        if v[i] != p.get_char(i) {
            assert(v@.subrange(0, p@.len() as int)[i as int] != p@[i as int]);
            return false;
        }
        i = i + 1;
    }
    assert(v@.subrange(0, p@.len() as int) =~= p@);
    true
}

/// Whether a character is a decimal digit.
pub open spec fn spec_is_digit(c: char) -> bool {
    48 <= c as u32 <= 57
}

/// The number the decimal digits spell, most significant first.
pub open spec fn digits_val(s: Seq<char>) -> int
    decreases s.len(),
{
    if s.len() == 0 {
        0
    } else {
        digits_val(s.drop_last()) * 10 + (s.last() as u32 - 48)
    }
}

/// Whether every character is a decimal digit.
pub open spec fn all_digits(s: Seq<char>) -> bool {
    forall|i: int| 0 <= i < s.len() ==> spec_is_digit(s[i])
}

/// The digits spell a number that is never negative.
pub proof fn lemma_digits_val_nonneg(s: Seq<char>)
    requires
        all_digits(s),
    ensures
        digits_val(s) >= 0,
    decreases s.len(),
{
    if s.len() > 0 {
        assert(all_digits(s.drop_last()));
        lemma_digits_val_nonneg(s.drop_last());
    }
}

/// What `str::parse` to a 64-bit signed integer yields: an optional sign,
/// then at least one digit, all digits, the value in range.
pub open spec fn spec_parse_i64(s: Seq<char>) -> Option<i64> {
    let (neg, digits) = if s.len() > 0 && (s[0] == '+' || s[0] == '-') {
        (s[0] == '-', s.skip(1))
    } else {
        (false, s)
    };
    if digits.len() == 0 || !all_digits(digits) {
        None
    } else {
        let v = digits_val(digits);
        if neg {
            if v <= 0x8000_0000_0000_0000 {
                Some((-v) as i64)
            } else {
                None
            }
        } else {
            if v <= 0x7fff_ffff_ffff_ffff {
                Some(v as i64)
            } else {
                None
            }
        }
    }
}

/// What `str::parse` to a 32-bit unsigned integer yields: an optional plus
/// sign, then at least one digit, all digits, the value in range.
pub open spec fn spec_parse_u32(s: Seq<char>) -> Option<u32> {
    let digits = if s.len() > 0 && s[0] == '+' {
        s.skip(1)
    } else {
        s
    };
    if digits.len() == 0 || !all_digits(digits) {
        None
    } else {
        let v = digits_val(digits);
        if v <= 0xffff_ffff {
            Some(v as u32)
        } else {
            None
        }
    }
}

/// Accumulate decimal digits into a value no greater than `limit`, reporting
/// overflow past it.
fn digits_acc(v: &Vec<char>, from: usize, limit: u64) -> (r: Option<u64>)
    requires
        from <= v@.len(),
        all_digits(v@.skip(from as int)),
    ensures
        (match r {
            Some(acc) => digits_val(v@.skip(from as int)) == acc && acc <= limit,
            None => digits_val(v@.skip(from as int)) > limit,
        }),
{
    let ghost digits = v@.skip(from as int);
    let mut acc: u64 = 0;
    let mut i: usize = from;
    let mut over: bool = false;
    while i < v.len()
        invariant
            from <= i <= v@.len(),
            digits == v@.skip(from as int),
            all_digits(digits),
            !over ==> acc == digits_val(digits.subrange(0, i - from)) && acc <= limit,
            over ==> digits_val(digits.subrange(0, i - from)) > limit,
        decreases v@.len() - i,
    {
        let ghost prefix = digits.subrange(0, i - from);
        let ghost prefix2 = digits.subrange(0, i + 1 - from as int);
        proof {
            assert(prefix2.drop_last() =~= prefix);
            assert(prefix2.last() == v@[i as int]);
            assert(spec_is_digit(v@[i as int]));
            assert(all_digits(prefix));
            lemma_digits_val_nonneg(prefix);
        }
        let c = v[i];
        let d: u64 = (c as u32 - 48) as u64;
        if over {
            proof {
                assert(digits_val(prefix2) == digits_val(prefix) * 10 + (v@[i as int] as u32 - 48));
                assert(digits_val(prefix) * 10 >= digits_val(prefix)) by (nonlinear_arith)
                    requires digits_val(prefix) >= 0;
            }
        } else {
            if acc > limit / 10 || (acc == limit / 10 && d > limit % 10) {
                over = true;
                proof {
                    assert(digits_val(prefix2) == digits_val(prefix) * 10 + (v@[i as int] as u32 - 48));
                    assert(acc * 10 + d > limit) by (nonlinear_arith)
                        requires
                            acc >= 0, d >= 0, limit >= 0,
                            acc > limit / 10 || (acc == limit / 10 && d > limit % 10),
                            limit == (limit / 10) * 10 + limit % 10,
                            limit % 10 < 10,
                    ;
                }
            } else {
                proof {
                    assert(acc * 10 + d <= limit) by (nonlinear_arith)
                        requires
                            acc >= 0, d <= 9,
                            acc < limit / 10 || (acc == limit / 10 && d <= limit % 10),
                            limit == (limit / 10) * 10 + limit % 10,
                    ;
                }
                acc = acc * 10 + d;
            }
        }
        i = i + 1;
    }
    assert(digits.subrange(0, digits.len() as int) =~= digits);
    if over {
        None
    } else {
        Some(acc)
    }
}

/// Parse the characters as a 64-bit signed decimal integer, exactly as
/// `str::parse` accepts one.
pub fn parse_i64_chars(v: &Vec<char>) -> (r: Option<i64>)
    ensures
        r == spec_parse_i64(v@),
{
    let (neg, from): (bool, usize) = if v.len() > 0 && (v[0] == '+' || v[0] == '-') {
        (v[0] == '-', 1)
    } else {
        (false, 0)
    };
    let ghost digits = v@.skip(from as int);
    proof {
        if from == 0 {
            assert(digits =~= v@);
        }
    }
    if v.len() == from {
        return None;
    }
    let mut i: usize = from;
    while i < v.len()
        invariant
            from <= i <= v@.len(),
            digits == v@.skip(from as int),
            (v@.len() > 0 && (v@[0] == '+' || v@[0] == '-')) ==> from == 1,
            !(v@.len() > 0 && (v@[0] == '+' || v@[0] == '-')) ==> from == 0 && digits == v@,
            forall|j: int| from <= j < i ==> spec_is_digit(v@[j]),
        decreases v@.len() - i,
    {
        let c = v[i] as u32;
        if c < 48 || c > 57 {
            assert(digits[i - from] == v@[i as int]);
            assert(!all_digits(digits));
            return None;
        }
        i = i + 1;
    }
    assert(all_digits(digits)) by {
        assert(forall|j: int| 0 <= j < digits.len() ==> digits[j] == v@[j + from]);
    }
    if neg {
        match digits_acc(v, from, 0x8000_0000_0000_0000) {
            Some(acc) => {
                proof {
                    lemma_digits_val_nonneg(digits);
                }
                if acc == 0x8000_0000_0000_0000 {
                    Some(i64::MIN)
                } else {
                    Some(-(acc as i64))
                }
            }
            None => None,
        }
    } else {
        match digits_acc(v, from, 0x7fff_ffff_ffff_ffff) {
            Some(acc) => {
                proof {
                    lemma_digits_val_nonneg(digits);
                }
                Some(acc as i64)
            }
            None => None,
        }
    }
}

/// Parse the characters as a 32-bit unsigned decimal integer, exactly as
/// `str::parse` accepts one.
pub fn parse_u32_chars(v: &Vec<char>) -> (r: Option<u32>)
    ensures
        r == spec_parse_u32(v@),
{
    let from: usize = if v.len() > 0 && v[0] == '+' {
        1
    } else {
        0
    };
    let ghost digits = v@.skip(from as int);
    proof {
        if from == 0 {
            assert(digits =~= v@);
        }
    }
    if v.len() == from {
        return None;
    }
    let mut i: usize = from;
    while i < v.len()
        invariant
            from <= i <= v@.len(),
            digits == v@.skip(from as int),
            (v@.len() > 0 && v@[0] == '+') ==> from == 1,
            !(v@.len() > 0 && v@[0] == '+') ==> from == 0 && digits == v@,
            forall|j: int| from <= j < i ==> spec_is_digit(v@[j]),
        decreases v@.len() - i,
    {
        let c = v[i] as u32;
        if c < 48 || c > 57 {
            assert(digits[i - from] == v@[i as int]);
            assert(!all_digits(digits));
            return None;
        }
        i = i + 1;
    }
    assert(all_digits(digits)) by {
        assert(forall|j: int| 0 <= j < digits.len() ==> digits[j] == v@[j + from]);
    }
    match digits_acc(v, from, 0xffff_ffff) {
        Some(acc) => {
            proof {
                lemma_digits_val_nonneg(digits);
            }
            Some(acc as u32)
        }
        None => None,
    }
}

/// The backslash escapes `\n`, `\t`, `\r` and `\\` replaced by the character
/// they name; any other backslash pair, and a trailing backslash, kept as
/// written.
pub open spec fn spec_unescape(s: Seq<char>) -> Seq<char>
    decreases s.len(),
{
    if s.len() == 0 {
        Seq::empty()
    } else if s[0] == '\\' {
        if s.len() == 1 {
            seq!['\\']
        } else if s[1] == 'n' {
            seq!['\n'] + spec_unescape(s.skip(2))
        } else if s[1] == 't' {
            seq!['\t'] + spec_unescape(s.skip(2))
        } else if s[1] == 'r' {
            seq!['\r'] + spec_unescape(s.skip(2))
        } else if s[1] == '\\' {
            seq!['\\'] + spec_unescape(s.skip(2))
        } else {
            seq!['\\', s[1]] + spec_unescape(s.skip(2))
        }
    } else {
        seq![s[0]] + spec_unescape(s.skip(1))
    }
}

/// Replace the backslash escapes `\n`, `\t`, `\r` and `\\` by the characters
/// they name, as TOML basic strings would, so environment variable values
/// behave like quoted configuration strings.
pub fn unescape_basic(s: &str) -> (r: String)
    ensures
        r@ == spec_unescape(s@),
{
    let v = str_chars(s);
    let mut out: Vec<char> = Vec::new();
    let mut i: usize = 0;
    assert(v@.skip(0) =~= v@);
    while i < v.len()
        invariant
            0 <= i <= v@.len(),
            v@ == s@,
            out@ + spec_unescape(v@.skip(i as int)) =~= spec_unescape(v@),
        decreases v@.len() - i,
    {
        let ghost rest = v@.skip(i as int);
        let c = v[i];
        assert(rest[0] == c);
        if c == '\\' && i + 1 < v.len() {
            let ghost rest2 = v@.skip(i + 2 as int);
            proof {
                assert(rest.len() >= 2);
                assert(rest[1] == v@[i + 1]);
                assert(rest.skip(2) =~= rest2);
            }
            let n = v[i + 1];
            if n == 'n' {
                out.push('\n');
            } else if n == 't' {
                out.push('\t');
            } else if n == 'r' {
                out.push('\r');
            } else if n == '\\' {
                out.push('\\');
            } else {
                out.push('\\');
                out.push(n);
            }
            i = i + 2;
        } else {
            if c == '\\' {
                assert(rest.len() == 1);
                out.push('\\');
            } else {
                proof {
                    assert(rest.skip(1) =~= v@.skip(i + 1 as int));
                }
                out.push(c);
            }
            i = i + 1;
        }
    }
    assert(v@.skip(v@.len() as int) =~= Seq::<char>::empty());
    assert(out@ =~= spec_unescape(v@));
    chars_string(&out)
}

/// Split on a separator character: the pieces between occurrences, empty
/// pieces kept, one piece even for empty text.
pub open spec fn spec_split(s: Seq<char>, sep: char) -> Seq<Seq<char>>
    decreases s.len(),
{
    if s.len() == 0 {
        seq![Seq::empty()]
    } else if s[0] == sep {
        seq![Seq::empty()] + spec_split(s.skip(1), sep)
    } else {
        let rest = spec_split(s.skip(1), sep);
        seq![seq![s[0]] + rest[0]] + rest.skip(1)
    }
}

/// A split always yields at least one piece.
pub proof fn lemma_split_nonempty(s: Seq<char>, sep: char)
    ensures
        spec_split(s, sep).len() >= 1,
    decreases s.len(),
{
    if s.len() > 0 {
        lemma_split_nonempty(s.skip(1), sep);
    }
}

/// No piece of a split is longer than the text.
pub proof fn lemma_split_piece_le(s: Seq<char>, sep: char)
    ensures
        forall|i: int| 0 <= i < spec_split(s, sep).len()
            ==> (#[trigger] spec_split(s, sep)[i]).len() <= s.len(),
    decreases s.len(),
{
    lemma_split_nonempty(s, sep);
    if s.len() > 0 {
        lemma_split_piece_le(s.skip(1), sep);
        lemma_split_nonempty(s.skip(1), sep);
    }
}

/// When the text holds the separator, every piece is strictly shorter than
/// the text.
pub proof fn lemma_split_piece_lt(s: Seq<char>, sep: char)
    requires
        spec_contains(s, sep),
    ensures
        forall|i: int| 0 <= i < spec_split(s, sep).len()
            ==> (#[trigger] spec_split(s, sep)[i]).len() < s.len(),
    decreases s.len(),
{
    lemma_split_nonempty(s, sep);
    lemma_split_piece_le(s.skip(1), sep);
    if s[0] == sep {
    } else {
        assert(spec_contains(s.skip(1), sep)) by {
            let w = choose|i: int| 0 <= i < s.len() && s[i] == sep;
            assert(s.skip(1)[w - 1] == sep);
        }
        lemma_split_piece_lt(s.skip(1), sep);
        lemma_split_nonempty(s.skip(1), sep);
    }
}

/// The views of a list of character vectors.
pub open spec fn seq_views(ss: Seq<Vec<char>>) -> Seq<Seq<char>> {
    Seq::new(ss.len(), |i: int| ss[i]@)
}

/// The first piece extended at the front.
pub open spec fn spec_attach(pre: Seq<char>, pieces: Seq<Seq<char>>) -> Seq<Seq<char>> {
    seq![pre + pieces[0]] + pieces.skip(1)
}

/// Split the characters on a separator character; empty pieces are kept.
pub fn split_chars(v: &Vec<char>, sep: char) -> (r: Vec<Vec<char>>)
    ensures
        seq_views(r@) == spec_split(v@, sep),
{
    let mut done: Vec<Vec<char>> = Vec::new();
    let mut cur: Vec<char> = Vec::new();
    let mut i: usize = 0;
    proof {
        assert(v@.skip(0) =~= v@);
        assert(seq_views(done@) =~~= Seq::<Seq<char>>::empty());
        lemma_split_nonempty(v@, sep);
        assert(spec_attach(cur@, spec_split(v@, sep)) =~~= spec_split(v@, sep));
    }
    while i < v.len()
        invariant
            0 <= i <= v@.len(),
            spec_split(v@, sep) =~~= seq_views(done@) + spec_attach(cur@, spec_split(v@.skip(i as int), sep)),
        decreases v@.len() - i,
    {
        let ghost rest = v@.skip(i as int);
        let ghost rest1 = v@.skip(i + 1 as int);
        proof {
            assert(rest[0] == v@[i as int]);
            assert(rest.skip(1) =~= rest1);
            lemma_split_nonempty(rest1, sep);
        }
        let c = v[i];
        if c == sep {
            let ghost old_done = done@;
            let ghost piece_view = cur@;
            let piece = cur;
            done.push(piece);
            cur = Vec::new();
            proof {
                let x = spec_split(rest1, sep);
                assert(spec_split(rest, sep) == seq![Seq::<char>::empty()] + x);
                assert(seq_views(done@) =~~= seq_views(old_done) + seq![piece_view]);
                assert(spec_attach(piece_view, seq![Seq::<char>::empty()] + x)
                    =~~= seq![piece_view] + x.skip(1).insert(0, x[0]));
                assert(x.skip(1).insert(0, x[0]) =~~= x);
                assert(spec_attach(Seq::<char>::empty(), x) =~~= x);
                assert(seq_views(old_done) + spec_attach(piece_view, spec_split(rest, sep))
                    =~~= seq_views(done@) + spec_attach(cur@, x));
            }
        } else {
            let ghost old_cur = cur@;
            cur.push(c);
            proof {
                let x = spec_split(rest1, sep);
                assert(spec_split(rest, sep) == seq![seq![rest[0]] + x[0]] + x.skip(1));
                assert((seq![seq![rest[0]] + x[0]] + x.skip(1)).skip(1) =~~= x.skip(1));
                assert(old_cur + (seq![rest[0]] + x[0]) =~= cur@ + x[0]);
                assert(spec_attach(old_cur, spec_split(rest, sep)) =~~= spec_attach(cur@, x));
            }
        }
        i = i + 1;
    }
    proof {
        assert(v@.skip(v@.len() as int) =~= Seq::<char>::empty());
        assert(spec_split(Seq::<char>::empty(), sep) == seq![Seq::<char>::empty()]);
    }
    let ghost old_done = done@;
    let ghost piece_view = cur@;
    done.push(cur);
    proof {
        assert(seq_views(done@) =~~= seq_views(old_done) + seq![piece_view]);
        assert(piece_view + Seq::<char>::empty() =~= piece_view);
        assert(spec_attach(piece_view, seq![Seq::<char>::empty()]) =~~= seq![piece_view]);
        assert(seq_views(done@) =~~= spec_split(v@, sep));
    }
    done
}

/// Split on a two-character separator, scanning left to right: the pieces
/// between non-overlapping occurrences, empty pieces kept.
pub open spec fn spec_split2(s: Seq<char>, a: char, b: char) -> Seq<Seq<char>>
    decreases s.len(),
{
    if s.len() >= 2 && s[0] == a && s[1] == b {
        seq![Seq::empty()] + spec_split2(s.skip(2), a, b)
    } else if s.len() == 0 {
        seq![Seq::empty()]
    } else {
        let rest = spec_split2(s.skip(1), a, b);
        seq![seq![s[0]] + rest[0]] + rest.skip(1)
    }
}

/// A two-character split always yields at least one piece.
pub proof fn lemma_split2_nonempty(s: Seq<char>, a: char, b: char)
    ensures
        spec_split2(s, a, b).len() >= 1,
    decreases s.len(),
{
    if s.len() >= 2 && s[0] == a && s[1] == b {
        lemma_split2_nonempty(s.skip(2), a, b);
    } else if s.len() > 0 {
        lemma_split2_nonempty(s.skip(1), a, b);
    }
}

/// Split the characters on a two-character separator; empty pieces kept.
pub fn split2_chars(v: &Vec<char>, a: char, b: char) -> (r: Vec<Vec<char>>)
    ensures
        seq_views(r@) == spec_split2(v@, a, b),
{
    let mut done: Vec<Vec<char>> = Vec::new();
    let mut cur: Vec<char> = Vec::new();
    let mut i: usize = 0;
    proof {
        assert(v@.skip(0) =~= v@);
        assert(seq_views(done@) =~~= Seq::<Seq<char>>::empty());
        lemma_split2_nonempty(v@, a, b);
        assert(spec_attach(cur@, spec_split2(v@, a, b)) =~~= spec_split2(v@, a, b));
    }
    while i < v.len()
        invariant
            0 <= i <= v@.len(),
            spec_split2(v@, a, b) =~~= seq_views(done@) + spec_attach(cur@, spec_split2(v@.skip(i as int), a, b)),
        decreases v@.len() - i,
    {
        let ghost rest = v@.skip(i as int);
        proof {
            assert(rest[0] == v@[i as int]);
            if rest.len() >= 2 {
                assert(rest[1] == v@[i + 1]);
            }
        }
        if v[i] == a && i + 1 < v.len() && v[i + 1] == b {
            let ghost rest2 = v@.skip(i + 2 as int);
            let ghost old_done = done@;
            let ghost piece_view = cur@;
            let piece = cur;
            done.push(piece);
            cur = Vec::new();
            proof {
                assert(rest.skip(2) =~= rest2);
                lemma_split2_nonempty(rest2, a, b);
                let x = spec_split2(rest2, a, b);
                assert(spec_split2(rest, a, b) == seq![Seq::<char>::empty()] + x);
                assert(seq_views(done@) =~~= seq_views(old_done) + seq![piece_view]);
                assert(spec_attach(piece_view, seq![Seq::<char>::empty()] + x)
                    =~~= seq![piece_view] + x.skip(1).insert(0, x[0]));
                assert(x.skip(1).insert(0, x[0]) =~~= x);
                assert(spec_attach(Seq::<char>::empty(), x) =~~= x);
                assert(seq_views(old_done) + spec_attach(piece_view, spec_split2(rest, a, b))
                    =~~= seq_views(done@) + spec_attach(cur@, x));
            }
            i = i + 2;
        } else {
            let ghost rest1 = v@.skip(i + 1 as int);
            let ghost old_cur = cur@;
            let c = v[i];
            cur.push(c);
            proof {
                assert(rest.skip(1) =~= rest1);
                lemma_split2_nonempty(rest1, a, b);
                let x = spec_split2(rest1, a, b);
                assert(spec_split2(rest, a, b) == seq![seq![rest[0]] + x[0]] + x.skip(1));
                assert((seq![seq![rest[0]] + x[0]] + x.skip(1)).skip(1) =~~= x.skip(1));
                assert(old_cur + (seq![rest[0]] + x[0]) =~= cur@ + x[0]);
                assert(spec_attach(old_cur, spec_split2(rest, a, b)) =~~= spec_attach(cur@, x));
            }
            i = i + 1;
        }
    }
    proof {
        assert(v@.skip(v@.len() as int) =~= Seq::<char>::empty());
        assert(spec_split2(Seq::<char>::empty(), a, b) == seq![Seq::<char>::empty()]);
    }
    let ghost old_done = done@;
    let ghost piece_view = cur@;
    done.push(cur);
    proof {
        assert(seq_views(done@) =~~= seq_views(old_done) + seq![piece_view]);
        assert(piece_view + Seq::<char>::empty() =~= piece_view);
        assert(spec_attach(piece_view, seq![Seq::<char>::empty()]) =~~= seq![piece_view]);
        assert(seq_views(done@) =~~= spec_split2(v@, a, b));
    }
    done
}


} // verus!

//! Characters and strings: comparison, searching, numerals and path joining.

use vstd::prelude::*;
use vstd::string::StringExecFns;

verus! {

use vstd::arithmetic::div_mod::lemma_div_denominator;
use vstd::arithmetic::power::{lemma_pow0, lemma_pow1, lemma_pow_positive, pow};

/// `String::push` appends one character.
pub assume_specification[ String::push ](s: &mut String, c: char)
    ensures
        final(s)@ == old(s)@.push(c),
;

/// How many bytes at the start are valid UTF-8.
pub open spec fn valid_prefix(bytes: Seq<u8>) -> nat
    decreases bytes.len(),
{
    if bytes.len() == 0 || vstd::utf8::valid_utf8(bytes) {
        bytes.len()
    } else {
        valid_prefix(bytes.drop_last())
    }
}

/// What `Utf8Error::error_len` says of bytes that are not valid UTF-8.
pub uninterp spec fn utf8_error_len(bytes: Seq<u8>) -> Option<usize>;

/// Decodes UTF-8 with `String::from_utf8`: the string comes back exactly when
/// the bytes are valid UTF-8, and it is the text that the bytes encode.
/// Otherwise `Utf8Error::valid_up_to` gives the length of the longest valid
/// prefix, and `Utf8Error::error_len` the length of what is wrong behind it.
#[verifier::external_body]
pub(crate) fn string_from_utf8(bytes: Vec<u8>) -> (r: Result<String, (usize, Option<usize>)>)
    ensures
        match r {
            Ok(s) => vstd::utf8::valid_utf8(bytes@) && s@ == vstd::utf8::decode_utf8(bytes@),
            Err((valid, len)) => !vstd::utf8::valid_utf8(bytes@) && valid == valid_prefix(bytes@)
                && len == utf8_error_len(bytes@),
        },
{
    String::from_utf8(bytes).map_err(|e| {
        let e = e.utf8_error();
        (e.valid_up_to(), e.error_len())
    })
}

/// The text that `String::from_utf8_lossy` makes of bytes.
pub uninterp spec fn utf8_lossy(bytes: Seq<u8>) -> Seq<char>;

/// Decodes UTF-8 with `String::from_utf8_lossy`: valid UTF-8 gives the text
/// that it encodes, and of other bytes the invalid parts are replaced.
#[verifier::external_body]
pub(crate) fn string_from_utf8_lossy(bytes: &[u8]) -> (r: String)
    ensures
        r@ == utf8_lossy(bytes@),
        vstd::utf8::valid_utf8(bytes@) ==> r@ == vstd::utf8::decode_utf8(bytes@),
{
    String::from_utf8_lossy(bytes).to_string()
}

/// The text in an optional string.
pub open spec fn text_of(s: Option<String>) -> Option<Seq<char>> {
    match s {
        Some(t) => Some(t@),
        None => None,
    }
}

/// The texts in a sequence of strings.
pub open spec fn texts_of(v: Seq<String>) -> Seq<Seq<char>> {
    Seq::new(v.len(), |i: int| v[i]@)
}

/// Tells whether two strings hold the same characters.
pub fn str_eq(a: &str, b: &str) -> (r: bool)
    ensures
        r == (a@ == b@),
{
    broadcast use vstd::utf8::encode_utf8_decode_utf8;

    let x = a.as_bytes();
    let y = b.as_bytes();
    if x.len() != y.len() {
        return false;
    }
    let mut i: usize = 0;
    while i < x.len()
        invariant
            i <= x@.len(),
            x@.len() == y@.len(),
            x@.take(i as int) == y@.take(i as int),
            x@ == vstd::utf8::encode_utf8(a@),
            y@ == vstd::utf8::encode_utf8(b@),
        decreases x@.len() - i,
    {
        if x[i] != y[i] {
            return false;
        }
        assert(x@.take(i + 1) =~= x@.take(i as int).push(x@[i as int]));
        assert(y@.take(i + 1) =~= y@.take(i as int).push(y@[i as int]));
        i = i + 1;
    }
    assert(x@.take(i as int) =~= x@);
    assert(y@.take(i as int) =~= y@);
    assert(vstd::utf8::decode_utf8(vstd::utf8::encode_utf8(a@)) == a@);
    assert(vstd::utf8::decode_utf8(vstd::utf8::encode_utf8(b@)) == b@);
    true
}

/// The characters of a string.
pub fn to_chars(s: &str) -> (v: Vec<char>)
    ensures
        v@ == s@,
{
    let mut v: Vec<char> = Vec::new();
    for c in it: s.chars()
        invariant
            v@ == it.seq().take(it.index() as int),
            it.seq() == s@,
    {
        v.push(c);
    }
    v
}

/// The string made of the characters at `from..to`.
pub fn from_chars(v: &Vec<char>, from: usize, to: usize) -> (s: String)
    requires
        from <= to <= v@.len(),
    ensures
        s@ == v@.subrange(from as int, to as int),
{
    let mut s = String::new();
    let mut i: usize = from;
    while i < to
        invariant
            from <= i <= to <= v@.len(),
            s@ =~= v@.subrange(from as int, i as int),
        decreases to - i,
    {
        s.push(v[i]);
        i = i + 1;
    }
    s
}

/// The decimal digit for `d`, which is below ten.
pub open spec fn digit(d: nat) -> char {
    (48 + d) as char
}

/// The decimal numeral for `n`, without leading zeros.
pub open spec fn decimal(n: nat) -> Seq<char>
    decreases n,
{
    if n < 10 {
        seq![digit(n)]
    } else {
        decimal(n / 10).push(digit(n % 10))
    }
}

/// Appends the decimal numeral for `n`.
pub fn append_decimal(s: &mut String, n: u64)
    ensures
        final(s)@ == old(s)@ + decimal(n as nat),
    decreases n,
{
    if n >= 10 {
        append_decimal(s, n / 10);
    }
    s.push((48u8 + (n % 10) as u8) as char);
    assert(s@ =~= old(s)@ + decimal(n as nat));
}

/// Two strings one after the other.
pub fn concat(a: &str, b: &str) -> (r: String)
    ensures
        r@ == a@ + b@,
{
    let mut r = a.to_string();
    r.append(b);
    r
}

/// A path below a directory: an absolute path stands for itself, and otherwise
/// one separator goes between the two unless the directory is empty or ends in
/// one.
pub open spec fn joined(dir: Seq<char>, name: Seq<char>) -> Seq<char> {
    if name.len() > 0 && name[0] == '/' {
        name
    } else if dir.len() == 0 || dir.last() == '/' {
        dir + name
    } else {
        dir + seq!['/'] + name
    }
}

/// Computes `joined`.
pub fn join_path(dir: &str, name: &str) -> (r: String)
    ensures
        r@ == joined(dir@, name@),
{
    let d = to_chars(dir);
    let n = to_chars(name);
    if n.len() > 0 && n[0] == '/' {
        name.to_string()
    } else if d.len() == 0 || d[d.len() - 1] == '/' {
        concat(dir, name)
    } else {
        let mut r = dir.to_string();
        r.push('/');
        r.append(name);
        assert(r@ =~= dir@ + seq!['/'] + name@);
        r
    }
}

/// `part` occurs in `s`.
pub open spec fn occurs_in(part: Seq<char>, s: Seq<char>) -> bool {
    exists|i: int|
        0 <= i <= s.len() - part.len() && #[trigger] s.subrange(i, i + part.len()) == part
}

/// Tells whether `part` occurs in `s`.
pub fn contains(s: &str, part: &str) -> (r: bool)
    ensures
        r == occurs_in(part@, s@),
{
    let v = to_chars(s);
    let p = to_chars(part);
    if p.len() > v.len() {
        return false;
    }
    let mut i: usize = 0;
    while i <= v.len() - p.len()
        invariant
            v@ == s@,
            p@ == part@,
            p@.len() <= v@.len(),
            i <= v@.len() - p@.len() + 1,
            v@.len() <= usize::MAX,
            forall|k: int|
                0 <= k < i && k + p@.len() <= v@.len() ==> #[trigger] v@.subrange(k, k + p@.len())
                    != p@,
        decreases v@.len() + 1 - i,
    {
        if matches_at(&v, i, &p) {
            return true;
        }
        if i == v.len() - p.len() {
            return false;
        }
        i = i + 1;
    }
    false
}

/// Tells whether `p` stands in `v` at `at`.
fn matches_at(v: &Vec<char>, at: usize, p: &Vec<char>) -> (r: bool)
    requires
        at + p@.len() <= v@.len(),
    ensures
        r == (v@.subrange(at as int, at + p@.len()) == p@),
{
    let total: usize = v.len();
    let mut j: usize = 0;
    while j < p.len()
        invariant
            at + p@.len() <= total,
            total == v@.len(),
            j <= p@.len(),
            forall|k: int| 0 <= k < j ==> v@[at + k] == p@[k],
        decreases p@.len() - j,
    {
        if v[at + j] != p[j] {
            assert(v@.subrange(at as int, at + p@.len())[j as int] != p@[j as int]);
            return false;
        }
        j = j + 1;
    }
    assert(v@.subrange(at as int, at + p@.len()) =~= p@);
    true
}

/// Where the first `c` is; where there is none, the length.
pub open spec fn first_at(s: Seq<char>, c: char) -> int
    decreases s.len(),
{
    if s.len() == 0 || s[0] == c {
        0
    } else {
        1 + first_at(s.drop_first(), c)
    }
}

/// `first_at` is where `c` is with none before it.
proof fn lemma_first_at(s: Seq<char>, c: char, i: int)
    requires
        0 <= i <= s.len(),
        forall|j: int| 0 <= j < i ==> s[j] != c,
        i < s.len() ==> s[i] == c,
    ensures
        first_at(s, c) == i,
    decreases i,
{
    if i > 0 {
        lemma_first_at(s.drop_first(), c, i - 1);
    }
}

/// Finds the first `c` at `from..to`; where there is none, gives `to`.
pub fn find_char(v: &Vec<char>, from: usize, to: usize, c: char) -> (r: usize)
    requires
        from <= to <= v@.len(),
    ensures
        from <= r <= to,
        r == from + first_at(v@.subrange(from as int, to as int), c),
{
    let mut i: usize = from;
    while i < to && v[i] != c
        invariant
            from <= i <= to <= v@.len(),
            forall|j: int| from <= j < i ==> v@[j] != c,
        decreases to - i,
    {
        i = i + 1;
    }
    proof {
        lemma_first_at(v@.subrange(from as int, to as int), c, i - from);
    }
    i
}

/// A character with the Unicode property White_Space.
pub open spec fn is_space(c: char) -> bool {
    let n = c as u32;
    9 <= n <= 13 || n == 0x20 || n == 0x85 || n == 0xa0 || n == 0x1680 || 0x2000 <= n <= 0x200a || n
        == 0x2028 || n == 0x2029 || n == 0x202f || n == 0x205f || n == 0x3000
}

/// Tells whether a character is white space.
fn is_white_space(c: char) -> (r: bool)
    ensures
        r == is_space(c),
{
    let n: u32 = c as u32;
    (9 <= n && n <= 13) || n == 0x20 || n == 0x85 || n == 0xa0 || n == 0x1680 || (0x2000 <= n && n
        <= 0x200a) || n == 0x2028 || n == 0x2029 || n == 0x202f || n == 0x205f || n == 0x3000
}

/// `s` without the white space at its start.
pub open spec fn trimmed_start(s: Seq<char>) -> Seq<char>
    decreases s.len(),
{
    if s.len() > 0 && is_space(s[0]) {
        trimmed_start(s.drop_first())
    } else {
        s
    }
}

/// `s` without the white space at its end.
pub open spec fn trimmed_end(s: Seq<char>) -> Seq<char>
    decreases s.len(),
{
    if s.len() > 0 && is_space(s.last()) {
        trimmed_end(s.drop_last())
    } else {
        s
    }
}

/// `s` without the white space at either end.
pub open spec fn trimmed(s: Seq<char>) -> Seq<char> {
    trimmed_end(trimmed_start(s))
}

/// Takes the white space off both ends.
pub fn trim(s: &str) -> (r: String)
    ensures
        r@ == trimmed(s@),
{
    let v = to_chars(s);
    let mut from: usize = 0;
    assert(v@.skip(0) =~= v@);
    while from < v.len() && is_white_space(v[from])
        invariant
            from <= v@.len(),
            trimmed_start(v@.skip(from as int)) == trimmed_start(v@),
        decreases v@.len() - from,
    {
        assert(v@.skip(from as int)[0] == v@[from as int]);
        assert(v@.skip(from as int).drop_first() =~= v@.skip(from + 1));
        from = from + 1;
    }
    let ghost tail = v@.skip(from as int);
    assert(from < v@.len() ==> tail[0] == v@[from as int]);
    assert(tail == trimmed_start(v@));
    let mut to: usize = v.len();
    assert(v@.subrange(from as int, to as int) =~= tail);
    while to > from && is_white_space(v[to - 1])
        invariant
            from <= to <= v@.len(),
            trimmed_end(v@.subrange(from as int, to as int)) == trimmed_end(tail),
        decreases to,
    {
        let ghost now = v@.subrange(from as int, to as int);
        assert(now.last() == v@[to - 1]);
        assert(now.drop_last() =~= v@.subrange(from as int, to - 1));
        to = to - 1;
    }
    let ghost rest = v@.subrange(from as int, to as int);
    assert(to > from ==> rest.last() == v@[to - 1]);
    from_chars(&v, from, to)
}

/// Every character is a decimal digit.
pub open spec fn all_digits(s: Seq<char>) -> bool {
    forall|i: int| 0 <= i < s.len() ==> '0' <= #[trigger] s[i] <= '9'
}

/// The number that decimal digits stand for.
pub open spec fn digits_value(s: Seq<char>) -> nat
    decreases s.len(),
{
    if s.len() == 0 {
        0
    } else {
        (digits_value(s.drop_last()) * 10 + (s.last() as nat - '0' as nat)) as nat
    }
}

/// The number up to `max` that a text stands for: decimal digits, which a plus
/// sign may precede.
pub open spec fn unsigned_value(s: Seq<char>, max: nat) -> Option<nat> {
    let body = if s.len() > 0 && s[0] == '+' {
        s.drop_first()
    } else {
        s
    };
    if body.len() > 0 && all_digits(body) && digits_value(body) <= max {
        Some(digits_value(body))
    } else {
        None
    }
}

/// Reads a number up to `max`.
pub fn parse_unsigned(s: &str, max: u64) -> (r: Option<u64>)
    ensures
        match r {
            Some(n) => unsigned_value(s@, max as nat) == Some(n as nat),
            None => unsigned_value(s@, max as nat) is None,
        },
{
    let v = to_chars(s);
    let from: usize = if v.len() > 0 && v[0] == '+' {
        1
    } else {
        0
    };
    let ghost body = v@.skip(from as int);
    proof {
        assert(body =~= if s@.len() > 0 && s@[0] == '+' {
            s@.drop_first()
        } else {
            s@
        });
    }
    if from == v.len() {
        return None;
    }
    let mut i: usize = from;
    let mut value: u64 = 0;
    let mut over: bool = false;
    while i < v.len()
        invariant
            from <= i <= v@.len(),
            body == v@.skip(from as int),
            all_digits(body.take(i - from)),
            over ==> digits_value(body.take(i - from)) > max,
            !over ==> value <= max && value == digits_value(body.take(i - from)),
            body.len() > 0,
            unsigned_value(s@, max as nat) == (if all_digits(body) && digits_value(body) <= max {
                Some(digits_value(body))
            } else {
                None
            }),
        decreases v@.len() - i,
    {
        let c = v[i];
        assert(body[i - from] == c);
        if !('0' <= c && c <= '9') {
            assert(!all_digits(body));
            return None;
        }
        let d: u64 = (c as u32 - '0' as u32) as u64;
        let ghost head = body.take(i - from);
        proof {
            let longer = body.take(i + 1 - from);
            assert(longer.drop_last() =~= head);
            assert(longer.last() == c);
            assert(digits_value(longer) == digits_value(head) * 10 + d);
            assert forall|k: int| 0 <= k < longer.len() implies '0' <= #[trigger] longer[k]
                <= '9' by {
                if k < head.len() {
                    assert(longer[k] == head[k]);
                }
            }
        }
        let grown: u128 = value as u128 * 10 + d as u128;
        if over || grown > max as u128 {
            over = true;
        } else {
            value = grown as u64;
        }
        i = i + 1;
    }
    assert(body.take(i - from) =~= body);
    if over {
        None
    } else {
        Some(value)
    }
}

/// A decimal numeral is made of digits, and they stand for the number.
pub proof fn law_decimal_is_read_back(n: nat)
    ensures
        decimal(n).len() > 0,
        all_digits(decimal(n)),
        digits_value(decimal(n)) == n,
    decreases n,
{
    if n < 10 {
        let s = decimal(n);
        assert(s.drop_last() =~= Seq::<char>::empty());
        assert(s.last() == digit(n));
        assert(digits_value(s.drop_last()) == 0);
    } else {
        law_decimal_is_read_back(n / 10);
        let s = decimal(n);
        assert(s.drop_last() =~= decimal(n / 10));
        assert(s.last() == digit(n % 10));
    }
}

/// Equal strings are the ones with the same characters, in one order or the other.
pub proof fn law_equal_strings(a: &str, b: &str, r: bool, q: bool)
    requires
        call_ensures(str_eq, (a, b), r),
        call_ensures(str_eq, (b, a), q),
    ensures
        r == q,
        r <==> a@.len() == b@.len() && forall|i: int| 0 <= i < a@.len() ==> a@[i] == b@[i],
{
    if a@.len() == b@.len() && forall|i: int| 0 <= i < a@.len() ==> a@[i] == b@[i] {
        assert(a@ =~= b@);
    }
}

/// Taking a string apart and putting it together again gives the string.
pub proof fn law_characters_make_the_string(s: &str, v: Vec<char>, t: String)
    requires
        call_ensures(to_chars, (s,), v),
        call_ensures(from_chars, (&v, 0usize, v@.len() as usize), t),
        v@.len() <= usize::MAX,
    ensures
        t@ == s@,
{
    assert(t@ =~= s@);
}

/// The digits of a numeral: digit `i` from the right counts powers of ten, and
/// there is no zero at the front but in the numeral for 0.
pub proof fn law_decimal_digits(n: nat, i: int)
    requires
        0 <= i < decimal(n).len(),
    ensures
        decimal(n)[decimal(n).len() - 1 - i] as int == 48 + (n as int / pow(10, i as nat)) % 10,
        decimal(n)[0] == '0' ==> n == 0 && decimal(n).len() == 1,
        n < pow(10, decimal(n).len()),
    decreases n,
{
    reveal(pow);
    law_decimal_is_read_back(n);
    if n < 10 {
        lemma_pow0(10);
        lemma_pow1(10);
        assert(decimal(n).len() == 1);
    } else {
        let m = n / 10;
        let shorter = decimal(m);
        law_decimal_is_read_back(m);
        lemma_pow0(10);
        law_decimal_digits(m, 0);
        assert(decimal(n).len() == shorter.len() + 1);
        assert(pow(10, decimal(n).len()) == 10 * pow(10, shorter.len()));
        if i > 0 {
            law_decimal_digits(m, i - 1);
            lemma_pow_positive(10, (i - 1) as nat);
            assert(pow(10, i as nat) == 10 * pow(10, (i - 1) as nat));
            lemma_div_denominator(n as int, 10, pow(10, (i - 1) as nat));
            assert(decimal(n)[decimal(n).len() - 1 - i] == shorter[shorter.len() - 1 - (i - 1)]);
        }
    }
}

/// Appending a numeral keeps what was there and adds the digits of the number.
pub proof fn law_numeral_is_appended(s: &mut String, n: u64, i: int)
    requires
        call_ensures(append_decimal, (s, n), ()),
        0 <= i < final(s)@.len() - old(s)@.len(),
    ensures
        final(s)@.take(old(s)@.len() as int) == old(s)@,
        final(s)@[final(s)@.len() - 1 - i] as int == 48 + (n as int / pow(10, i as nat)) % 10,
        digits_value(final(s)@.skip(old(s)@.len() as int)) == n,
{
    law_decimal_is_read_back(n as nat);
    assert(final(s)@.skip(old(s)@.len() as int) =~= decimal(n as nat));
    assert(final(s)@.take(old(s)@.len() as int) =~= old(s)@);
    law_decimal_digits(n as nat, i);
}

/// Zeros at the front of a numeral do not count.
pub proof fn law_leading_zeros_do_not_count(s: Seq<char>)
    ensures
        digits_value(seq!['0'] + s) == digits_value(s),
    decreases s.len(),
{
    let t = seq!['0'] + s;
    if s.len() == 0 {
        assert(t.drop_last() =~= Seq::<char>::empty());
        assert(digits_value(t.drop_last()) == 0);
    } else {
        law_leading_zeros_do_not_count(s.drop_last());
        assert(t.drop_last() =~= seq!['0'] + s.drop_last());
        assert(t.last() == s.last());
    }
}

/// A number up to the limit is read from its numeral, with or without a plus sign
/// and zeros in front, and a larger one is not.
pub proof fn law_numerals_are_read(n: nat, max: u64, s: &str, r: Option<u64>)
    requires
        call_ensures(parse_unsigned, (s, max), r),
        s@ == decimal(n) || s@ == seq!['+'] + decimal(n) || s@ == seq!['0'] + decimal(n),
    ensures
        match r {
            Some(x) => x == n && n <= max,
            None => n > max,
        },
{
    law_decimal_is_read_back(n);
    law_leading_zeros_do_not_count(decimal(n));
    let d = decimal(n);
    assert(d[0] != '+');
    assert((seq!['+'] + d).drop_first() =~= d);
    assert(all_digits(seq!['0'] + d)) by {
        assert forall|i: int| 0 <= i < (seq!['0'] + d).len() implies '0' <= #[trigger] (seq!['0']
            + d)[i] <= '9' by {
            if i > 0 {
                assert((seq!['0'] + d)[i] == d[i - 1]);
            }
        }
    }
}

/// Nothing else is a number: a text that has another character in it, but for a
/// plus sign at its start, or that has no digit at all, is not read.
pub proof fn law_other_texts_are_no_numbers(s: &str, max: u64, r: Option<u64>, i: int)
    requires
        call_ensures(parse_unsigned, (s, max), r),
        ({
            ||| s@.len() == 0
            ||| s@.len() == 1 && s@[0] == '+'
            ||| 0 <= i < s@.len() && !('0' <= s@[i] <= '9') && !(i == 0 && s@[i] == '+')
        }),
    ensures
        r is None,
{
    if s@.len() > 0 && s@[0] == '+' {
        let body = s@.drop_first();
        if s@.len() > 1 {
            assert(body[i - 1] == s@[i]);
        }
    }
}

/// A path below a directory ends in the name. But for an absolute name it starts
/// with the directory, and between the two there is nothing or one separator:
/// one exactly where the directory has a name and does not end in one.
pub proof fn law_joined_paths(dir: &str, name: &str, r: String)
    requires
        call_ensures(join_path, (dir, name), r),
    ensures
        r@.len() >= name@.len(),
        r@.skip(r@.len() - name@.len()) == name@,
        name@.len() > 0 && name@[0] == '/' ==> r@.len() == name@.len(),
        !(name@.len() > 0 && name@[0] == '/') ==> {
            let gap = r@.len() - dir@.len() - name@.len();
            &&& 0 <= gap <= 1
            &&& r@.take(dir@.len() as int) == dir@
            &&& gap == 1 <==> dir@.len() > 0 && dir@.last() != '/'
            &&& gap == 1 ==> r@[dir@.len() as int] == '/'
        },
{
    assert(r@.skip(r@.len() - name@.len()) =~= name@);
    if !(name@.len() > 0 && name@[0] == '/') {
        assert(r@.take(dir@.len() as int) =~= dir@);
    }
}

/// A part of a text is found exactly where the text is something, then the part,
/// then something.
pub proof fn law_parts_are_found(s: &str, part: &str, r: bool, before: Seq<char>, after: Seq<char>)
    requires
        call_ensures(contains, (s, part), r),
    ensures
        s@ == before + part@ + after ==> r,
        r ==> exists|a: Seq<char>, b: Seq<char>| s@ == #[trigger] ((a + part@) + b),
{
    if s@ == before + part@ + after {
        let i = before.len() as int;
        assert(s@.subrange(i, i + part@.len()) =~= part@);
    }
    if r {
        let i = choose|i: int|
            0 <= i <= s@.len() - part@.len() && #[trigger] s@.subrange(i, i + part@.len())
                == part@;
        assert(s@ =~= (s@.take(i) + part@) + s@.skip(i + part@.len()));
    }
}

/// The first character of a sort is found: it is there, or the end is, and there
/// is none before it.
pub proof fn law_first_character_is_found(
    v: &Vec<char>,
    from: usize,
    to: usize,
    c: char,
    r: usize,
)
    requires
        from <= to <= v@.len(),
        call_ensures(find_char, (v, from, to, c), r),
    ensures
        from <= r <= to,
        r < to ==> v@[r as int] == c,
        forall|j: int| from <= j < r ==> v@[j] != c,
{
    let s = v@.subrange(from as int, to as int);
    lemma_first_at_splits(s, c);
    assert forall|j: int| from <= j < r implies v@[j] != c by {
        assert(s[j - from] == v@[j]);
    }
    if r < to {
        assert(s[r - from] == v@[r as int]);
    }
}

/// There is no `c` before `first_at`, and there is one there unless it is the end.
pub proof fn lemma_first_at_splits(s: Seq<char>, c: char)
    ensures
        0 <= first_at(s, c) <= s.len(),
        first_at(s, c) < s.len() ==> s[first_at(s, c)] == c,
        forall|j: int| 0 <= j < first_at(s, c) ==> s[j] != c,
    decreases s.len(),
{
    if s.len() > 0 && s[0] != c {
        let rest = s.drop_first();
        lemma_first_at_splits(rest, c);
        assert forall|j: int| 0 <= j < first_at(s, c) implies s[j] != c by {
            if j > 0 {
                assert(rest[j - 1] == s[j]);
            }
        }
    }
}

/// Where `c` is first in a text that has it behind a part without it.
pub proof fn lemma_first_at_behind(a: Seq<char>, c: char, b: Seq<char>)
    requires
        forall|j: int| 0 <= j < a.len() ==> a[j] != c,
    ensures
        first_at(a, c) == a.len(),
        first_at(a + seq![c] + b, c) == a.len(),
{
    lemma_first_at(a, c, a.len() as int);
    lemma_first_at(a + seq![c] + b, c, a.len() as int);
}

/// The white space that is taken off: these characters and no others.
pub proof fn law_white_space(c: char)
    ensures
        is_space(c) <==> seq![
            '\u{9}',
            '\u{a}',
            '\u{b}',
            '\u{c}',
            '\u{d}',
            ' ',
            '\u{85}',
            '\u{a0}',
            '\u{1680}',
            '\u{2000}',
            '\u{2001}',
            '\u{2002}',
            '\u{2003}',
            '\u{2004}',
            '\u{2005}',
            '\u{2006}',
            '\u{2007}',
            '\u{2008}',
            '\u{2009}',
            '\u{200a}',
            '\u{2028}',
            '\u{2029}',
            '\u{202f}',
            '\u{205f}',
            '\u{3000}',
        ].contains(c),
{
    let all = seq![
        '\u{9}',
        '\u{a}',
        '\u{b}',
        '\u{c}',
        '\u{d}',
        ' ',
        '\u{85}',
        '\u{a0}',
        '\u{1680}',
        '\u{2000}',
        '\u{2001}',
        '\u{2002}',
        '\u{2003}',
        '\u{2004}',
        '\u{2005}',
        '\u{2006}',
        '\u{2007}',
        '\u{2008}',
        '\u{2009}',
        '\u{200a}',
        '\u{2028}',
        '\u{2029}',
        '\u{202f}',
        '\u{205f}',
        '\u{3000}',
    ];
    if is_space(c) {
        let n = c as int;
        let i = if n <= 13 {
            n - 9
        } else if n == 0x20 {
            5
        } else if n == 0x85 {
            6
        } else if n == 0xa0 {
            7
        } else if n == 0x1680 {
            8
        } else if n <= 0x200a {
            n - 0x2000 + 9
        } else if n == 0x2028 {
            20
        } else if n == 0x2029 {
            21
        } else if n == 0x202f {
            22
        } else if n == 0x205f {
            23
        } else {
            24
        };
        assert(all[i] == c);
    }
}

/// Trimming takes the white space off both ends and nothing else: what stands
/// between it comes back.
pub proof fn law_trimming(s: &str, r: String, a: Seq<char>, m: Seq<char>, b: Seq<char>)
    requires
        call_ensures(trim, (s,), r),
        s@ == a + m + b,
        forall|i: int| 0 <= i < a.len() ==> is_space(#[trigger] a[i]),
        forall|i: int| 0 <= i < b.len() ==> is_space(#[trigger] b[i]),
        m.len() > 0 ==> !is_space(m[0]) && !is_space(m.last()),
    ensures
        r@ == m,
{
    if m.len() > 0 {
        assert(s@ =~= a + (m + b));
        lemma_trimmed_start(a, m + b);
        lemma_trimmed_end(m, b);
    } else {
        let blank = a + b;
        assert(s@ =~= blank + Seq::<char>::empty());
        assert forall|i: int| 0 <= i < blank.len() implies is_space(#[trigger] blank[i]) by {
            if i >= a.len() {
                assert(blank[i] == b[i - a.len()]);
            }
        }
        lemma_trimmed_start(blank, Seq::empty());
        assert(r@ =~= m);
    }
}

/// White space at the start comes off.
proof fn lemma_trimmed_start(a: Seq<char>, rest: Seq<char>)
    requires
        forall|i: int| 0 <= i < a.len() ==> is_space(#[trigger] a[i]),
        rest.len() > 0 ==> !is_space(rest[0]),
    ensures
        trimmed_start(a + rest) == rest,
    decreases a.len(),
{
    if a.len() == 0 {
        assert(a + rest =~= rest);
    } else {
        assert((a + rest)[0] == a[0]);
        assert((a + rest).drop_first() =~= a.drop_first() + rest);
        assert forall|i: int| 0 <= i < a.drop_first().len() implies is_space(
            #[trigger] a.drop_first()[i],
        ) by {
            assert(a.drop_first()[i] == a[i + 1]);
        }
        lemma_trimmed_start(a.drop_first(), rest);
    }
}

/// White space at the end comes off.
proof fn lemma_trimmed_end(rest: Seq<char>, b: Seq<char>)
    requires
        forall|i: int| 0 <= i < b.len() ==> is_space(#[trigger] b[i]),
        rest.len() > 0 ==> !is_space(rest.last()),
    ensures
        trimmed_end(rest + b) == rest,
    decreases b.len(),
{
    if b.len() == 0 {
        assert(rest + b =~= rest);
    } else {
        assert((rest + b).last() == b.last());
        assert((rest + b).drop_last() =~= rest + b.drop_last());
        lemma_trimmed_end(rest, b.drop_last());
    }
}

/// What `valid_prefix` counts is valid, and nothing longer is.
pub proof fn law_valid_prefix_is_the_longest(bytes: Seq<u8>, n: int)
    requires
        valid_prefix(bytes) < n <= bytes.len(),
    ensures
        valid_prefix(bytes) == 0 || vstd::utf8::valid_utf8(
            bytes.take(valid_prefix(bytes) as int),
        ),
        !vstd::utf8::valid_utf8(bytes.take(n)),
    decreases bytes.len(),
{
    let shorter = bytes.drop_last();
    lemma_valid_prefix_is_short(shorter);
    if n == bytes.len() {
        assert(bytes.take(n) =~= bytes);
        let k = valid_prefix(bytes) as int;
        if k < shorter.len() {
            law_valid_prefix_is_the_longest(shorter, shorter.len() as int);
            assert(shorter.take(k) =~= bytes.take(k));
        } else {
            assert(bytes.take(k) =~= shorter);
        }
    } else {
        assert(shorter.take(n) =~= bytes.take(n));
        let k = valid_prefix(bytes) as int;
        law_valid_prefix_is_the_longest(shorter, n);
        assert(shorter.take(k) =~= bytes.take(k));
    }
}

/// `valid_prefix` counts no more bytes than there are, and all of them where they
/// are valid.
proof fn lemma_valid_prefix_is_short(bytes: Seq<u8>)
    ensures
        valid_prefix(bytes) <= bytes.len(),
        valid_prefix(bytes) == bytes.len() ==> bytes.len() == 0 || vstd::utf8::valid_utf8(bytes),
    decreases bytes.len(),
{
    if bytes.len() > 0 && !vstd::utf8::valid_utf8(bytes) {
        lemma_valid_prefix_is_short(bytes.drop_last());
    }
}

/// A plus sign in front of a text that has none, and zeros in front of digits, change
/// nothing of the number that is read, nor of whether one is.
pub proof fn law_signs_and_zeros_do_not_count(
    s: &str,
    signed: &str,
    padded: &str,
    max: u64,
    r: Option<u64>,
    rs: Option<u64>,
    rp: Option<u64>,
)
    requires
        s@.len() > 0,
        signed@ == seq!['+'] + s@,
        padded@ == seq!['0'] + s@,
        call_ensures(parse_unsigned, (s, max), r),
        call_ensures(parse_unsigned, (signed, max), rs),
        call_ensures(parse_unsigned, (padded, max), rp),
    ensures
        s@[0] != '+' ==> rs == r && rp == r,
        s@[0] == '+' ==> rs is None && rp is None,
{
    let (p, z) = (signed@, padded@);
    assert(p.drop_first() =~= s@);
    assert(z[0] == '0' && z[1] == s@[0] && p[0] == '+' && p[1] == s@[0]);
    law_leading_zeros_do_not_count(s@);
    if s@[0] == '+' {
        assert(!all_digits(s@));
        assert(!all_digits(z));
    } else {
        assert(all_digits(z) <==> all_digits(s@)) by {
            if all_digits(s@) {
                assert forall|i: int| 0 <= i < z.len() implies '0' <= #[trigger] z[i] <= '9' by {
                    if i > 0 {
                        assert(z[i] == s@[i - 1]);
                    }
                }
            }
            if all_digits(z) {
                assert forall|i: int| 0 <= i < s@.len() implies '0' <= #[trigger] s@[i] <= '9' by {
                    assert(z[i + 1] == s@[i]);
                }
            }
        }
    }
}

/// Two texts one after the other are as long as both, start as the first and end as
/// the second.
pub proof fn law_texts_one_after_the_other(a: &str, b: &str, r: String, i: int)
    requires
        call_ensures(concat, (a, b), r),
    ensures
        r@.len() == a@.len() + b@.len(),
        0 <= i < a@.len() ==> r@[i] == a@[i],
        0 <= i < b@.len() ==> r@[a@.len() + i] == b@[i],
{
}

} // verus!

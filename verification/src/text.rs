//! Text helpers: ASCII case folding, trimming, decimal and hexadecimal digits.

use vstd::prelude::*;

verus! {

/// `String::push` appends one character to the end of the string.
pub assume_specification[ String::push ](s: &mut String, c: char)
    ensures
        final(s)@ == old(s)@.push(c),
;

/// Where and how bytes fail to be UTF-8, as `std::str::Utf8Error` reports it:
/// the length of the longest well-formed beginning, and the length of the bad
/// sequence after it, or nothing where the bytes merely end too early.
pub uninterp spec fn utf8_fault(bytes: Seq<u8>) -> (usize, Option<usize>);

/// `String::from_utf8` succeeds exactly on well-formed UTF-8, and the string
/// it then returns is the one whose encoding the bytes are. Its error reports
/// `valid_up_to` and `error_len`, which depend on the bytes alone.
#[verifier::external_body]
pub(crate) fn string_from_utf8(bytes: Vec<u8>) -> (r: Result<String, (usize, Option<usize>)>)
    ensures
        match r {
            Ok(s) => vstd::utf8::valid_utf8(bytes@) && vstd::utf8::encode_utf8(s@) == bytes@,
            Err(fault) => !vstd::utf8::valid_utf8(bytes@) && fault == utf8_fault(bytes@),
        },
{
    String::from_utf8(bytes).map_err(|e| (e.utf8_error().valid_up_to(), e.utf8_error().error_len()))
}

/// The characters of a string.
pub fn chars_of(s: &str) -> (r: Vec<char>)
    ensures
        r@ == s@,
{
    let mut out: Vec<char> = Vec::new();
    for c in it: s.chars()
        invariant
            out@ == it.seq().take(it.index()),
            it.seq() == s@,
    {
        out.push(c);
    }
    out
}

/// The string made of the characters `from..to` of `chars`.
pub fn string_of(chars: &Vec<char>, from: usize, to: usize) -> (r: String)
    requires
        from <= to <= chars@.len(),
    ensures
        r@ == chars@.subrange(from as int, to as int),
{
    let mut out = String::new();
    let mut i: usize = from;
    while i < to
        invariant
            from <= i <= to <= chars@.len(),
            out@ == chars@.subrange(from as int, i as int),
        decreases to - i,
    {
        out.push(chars[i]);
        i = i + 1;
    }
    out
}

/// The lower-case form of an ASCII capital; every other character as it is.
pub open spec fn ascii_lower_char(c: char) -> char {
    if 'A' <= c && c <= 'Z' {
        ((c as u8) + 32) as char
    } else {
        c
    }
}

/// `s` with its ASCII capitals lowered.
pub open spec fn ascii_lower(s: Seq<char>) -> Seq<char> {
    Seq::new(s.len(), |i: int| ascii_lower_char(s[i]))
}

/// Lowers the ASCII capitals of `s` and leaves everything else alone.
pub fn to_ascii_lowercase(s: &str) -> (r: String)
    ensures
        r@ == ascii_lower(s@),
{
    let mut out = String::new();
    for c in it: s.chars()
        invariant
            out@ == ascii_lower(s@).take(it.index()),
            it.seq() == s@,
    {
        if 'A' <= c && c <= 'Z' {
            out.push((c as u8 + 32) as char);
        } else {
            out.push(c);
        }
    }
    out
}

/// Lowering a lowered string changes nothing.
pub proof fn lower_is_idempotent(s: Seq<char>)
    ensures
        ascii_lower(ascii_lower(s)) == ascii_lower(s),
{
}

/// The characters with the Unicode `White_Space` property.
pub open spec fn is_white(c: char) -> bool {
    let u = c as u32;
    ||| 0x09 <= u <= 0x0D
    ||| u == 0x20
    ||| u == 0x85
    ||| u == 0xA0
    ||| u == 0x1680
    ||| 0x2000 <= u <= 0x200A
    ||| u == 0x2028
    ||| u == 0x2029
    ||| u == 0x202F
    ||| u == 0x205F
    ||| u == 0x3000
}

fn white(c: char) -> (r: bool)
    ensures
        r == is_white(c),
{
    let u: u32 = c as u32;
    (0x09 <= u && u <= 0x0D) || u == 0x20 || u == 0x85 || u == 0xA0 || u == 0x1680 || (0x2000 <= u
        && u <= 0x200A) || u == 0x2028 || u == 0x2029 || u == 0x202F || u == 0x205F || u == 0x3000
}

/// `s` without its leading white space.
pub open spec fn trim_front(s: Seq<char>) -> Seq<char>
    decreases s.len(),
{
    if s.len() > 0 && is_white(s[0]) {
        trim_front(s.drop_first())
    } else {
        s
    }
}

/// `s` without its trailing white space.
pub open spec fn trim_back(s: Seq<char>) -> Seq<char>
    decreases s.len(),
{
    if s.len() > 0 && is_white(s.last()) {
        trim_back(s.drop_last())
    } else {
        s
    }
}

/// `s` without the white space at its two ends.
pub open spec fn trimmed(s: Seq<char>) -> Seq<char> {
    trim_back(trim_front(s))
}

/// Removes the white space at both ends of `s`.
pub fn trim(s: &str) -> (r: String)
    ensures
        r@ == trimmed(s@),
{
    let chars = chars_of(s);
    let mut from: usize = 0;
    assert(chars@.skip(0) == chars@);
    while from < chars.len() && white(chars[from])
        invariant
            from <= chars@.len(),
            trim_front(chars@) == trim_front(chars@.skip(from as int)),
        decreases chars@.len() - from,
    {
        assert(chars@.skip(from as int).drop_first() == chars@.skip(from + 1));
        from = from + 1;
    }
    assert(chars@.skip(from as int) == chars@.subrange(from as int, chars@.len() as int));
    let mut to: usize = chars.len();
    while from < to && white(chars[to - 1])
        invariant
            from <= to <= chars@.len(),
            trim_back(chars@.subrange(from as int, chars@.len() as int)) == trim_back(
                chars@.subrange(from as int, to as int),
            ),
        decreases to - from,
    {
        assert(chars@.subrange(from as int, to as int).drop_last() == chars@.subrange(
            from as int,
            to - 1,
        ));
        to = to - 1;
    }
    string_of(&chars, from, to)
}

/// The decimal digits of `n`, most significant first, without leading zeros.
pub open spec fn decimal(n: nat) -> Seq<char>
    decreases n,
{
    if n < 10 {
        seq![digit_char(n)]
    } else {
        decimal(n / 10).push(digit_char(n % 10))
    }
}

/// The character of a decimal digit.
pub open spec fn digit_char(d: nat) -> char {
    (48 + d) as char
}

/// Whether `c` is one of `0` to `9`.
pub open spec fn is_digit(c: char) -> bool {
    '0' <= c && c <= '9'
}

/// The number that a sequence of decimal digits denotes.
pub open spec fn decimal_value(s: Seq<char>) -> nat
    decreases s.len(),
{
    if s.len() == 0 {
        0
    } else {
        decimal_value(s.drop_last()) * 10 + (s.last() as nat - 48) as nat
    }
}

/// Whether `s` holds nothing but decimal digits.
pub open spec fn all_digits(s: Seq<char>) -> bool {
    forall|i: int| 0 <= i < s.len() ==> is_digit(#[trigger] s[i])
}

/// `s` without the plus sign that it may begin with.
pub open spec fn without_plus(s: Seq<char>) -> Seq<char> {
    if s.len() > 0 && s[0] == '+' {
        s.drop_first()
    } else {
        s
    }
}

/// A number below 65536 in decimal: an optional `+`, then at least one digit.
pub open spec fn port_number(s: Seq<char>) -> Option<u16> {
    let digits = without_plus(s);
    if digits.len() > 0 && all_digits(digits) && decimal_value(digits) <= 0xFFFF {
        Some(decimal_value(digits) as u16)
    } else {
        None
    }
}

proof fn lemma_decimal_value_grows(s: Seq<char>, k: int)
    requires
        0 <= k <= s.len(),
    ensures
        decimal_value(s.take(k)) <= decimal_value(s),
    decreases s.len(),
{
    if k == s.len() {
        assert(s.take(k) == s);
    } else {
        assert(s.drop_last().take(k) == s.take(k));
        lemma_decimal_value_grows(s.drop_last(), k);
    }
}

/// The decimal digits of a number denote that number, and there is no zero in
/// front of them.
pub proof fn lemma_decimal(n: nat)
    ensures
        decimal(n).len() > 0,
        all_digits(decimal(n)),
        decimal_value(decimal(n)) == n,
        decimal(n).len() > 1 ==> decimal(n)[0] != '0',
        n > 0 ==> decimal(n)[0] != '0',
        n < 1000 ==> decimal(n).len() <= 3,
    decreases n,
{
    reveal_with_fuel(decimal_value, 2);
    if n < 10 {
        assert(decimal(n).drop_last() == Seq::<char>::empty());
    } else {
        lemma_decimal(n / 10);
        assert(decimal(n).drop_last() == decimal(n / 10));
        assert(n < 1000 ==> decimal(n).len() <= 3) by {
            reveal_with_fuel(decimal, 3);
        }
    }
}

/// Digits without a needless zero in front are the digits of their number.
pub proof fn lemma_decimal_of_value(s: Seq<char>)
    requires
        s.len() > 0,
        all_digits(s),
        s.len() == 1 || s[0] != '0',
    ensures
        decimal(decimal_value(s)) == s,
        s[0] != '0' ==> decimal_value(s) > 0,
    decreases s.len(),
{
    let head = s.drop_last();
    assert(is_digit(s.last()));
    if s.len() == 1 {
        assert(decimal_value(head) == 0);
        assert(decimal(decimal_value(s)) == s);
    } else {
        assert(all_digits(head)) by {
            assert forall|i: int| 0 <= i < head.len() implies is_digit(#[trigger] head[i]) by {
                assert(is_digit(s[i]));
            }
        }
        lemma_decimal_of_value(head);
        assert(decimal(decimal_value(s)) == s);
    }
}

/// Reads the characters from `from` on as a port number.
pub fn parse_port(chars: &Vec<char>, from: usize) -> (r: Option<u16>)
    requires
        from <= chars@.len(),
    ensures
        r == port_number(chars@.skip(from as int)),
{
    let ghost s = chars@.skip(from as int);
    let start: usize = if from < chars.len() && chars[from] == '+' {
        from + 1
    } else {
        from
    };
    let ghost digits = chars@.skip(start as int);
    assert(digits == without_plus(s));
    if start == chars.len() {
        return None;
    }
    let mut value: u32 = 0;
    let mut i: usize = start;
    while i < chars.len()
        invariant
            start <= i <= chars@.len(),
            digits == chars@.skip(start as int),
            forall|k: int| 0 <= k < i - start ==> is_digit(#[trigger] digits[k]),
            value == decimal_value(digits.take(i - start)),
            value <= 0xFFFF,
            digits == without_plus(s),
            s == chars@.skip(from as int),
        decreases chars@.len() - i,
    {
        let c = chars[i];
        assert(c == digits[i - start]);
        if !('0' <= c && c <= '9') {
            assert(!is_digit(digits[i - start]));
            return None;
        }
        assert(digits.take(i - start + 1).drop_last() == digits.take(i - start));
        value = value * 10 + (c as u32 - 48);
        i = i + 1;
        if value > 0xFFFF {
            proof {
                lemma_decimal_value_grows(digits, i - start);
            }
            return None;
        }
    }
    assert(digits.take(i - start) == digits);
    Some(value as u16)
}

/// Appends the decimal digits of `n`.
pub fn push_decimal(out: &mut String, n: u64)
    ensures
        final(out)@ == old(out)@ + decimal(n as nat),
    decreases n,
{
    if n >= 10 {
        push_decimal(out, n / 10);
    }
    out.push((48 + (n % 10) as u8) as char);
}

/// The upper-case hexadecimal digit of `d`.
pub open spec fn hex_char(d: nat) -> char {
    if d < 10 {
        (48 + d) as char
    } else {
        (55 + d) as char
    }
}

/// The upper-case hexadecimal digits of `n`, at least two of them.
pub open spec fn hex_pair_text(n: nat) -> Seq<char>
    decreases n,
{
    if n < 256 {
        seq![hex_char(n / 16), hex_char(n % 16)]
    } else {
        hex_pair_text(n / 16).push(hex_char(n % 16))
    }
}

fn hex_digit(d: u8) -> (c: char)
    requires
        d < 16,
    ensures
        c == hex_char(d as nat),
{
    if d < 10 {
        (48 + d) as char
    } else {
        (55 + d) as char
    }
}

/// Appends `n` in upper-case hexadecimal, padded with zeros to two digits.
pub fn push_hex(out: &mut String, n: u32)
    ensures
        final(out)@ == old(out)@ + hex_pair_text(n as nat),
    decreases n,
{
    if n < 256 {
        out.push(hex_digit((n / 16) as u8));
        out.push(hex_digit((n % 16) as u8));
    } else {
        push_hex(out, n / 16);
        out.push(hex_digit((n % 16) as u8));
    }
}

// ---------- Laws ----------


/// Lowering keeps every character in its place: a capital from `A` to `Z` moves
/// up by 32, and no other character changes.
pub proof fn what_lowering_does(s: Seq<char>, i: int)
    requires
        0 <= i < s.len(),
    ensures
        ascii_lower(s).len() == s.len(),
        65 <= s[i] as u32 <= 90 ==> ascii_lower(s)[i] as u32 == s[i] as u32 + 32,
        s[i] as u32 <= 64 || s[i] as u32 >= 91 ==> ascii_lower(s)[i] == s[i],
{
}

/// White space is tab, line feed, vertical tab, form feed, carriage return,
/// space, next line, no-break space, the Ogham space, the eleven spaces from en
/// quad to hair space, the line and paragraph separators, the narrow no-break
/// and mathematical spaces and the ideographic space. Nothing else is.
pub proof fn what_white_space_is(c: char)
    ensures
        is_white(c) <==> seq![
            9u32,
            10,
            11,
            12,
            13,
            32,
            133,
            160,
            5760,
            8192,
            8193,
            8194,
            8195,
            8196,
            8197,
            8198,
            8199,
            8200,
            8201,
            8202,
            8232,
            8233,
            8239,
            8287,
            12288,
        ].contains(c as u32),
{
    let u = c as u32;
    let all = seq![
        9u32,
        10,
        11,
        12,
        13,
        32,
        133,
        160,
        5760,
        8192,
        8193,
        8194,
        8195,
        8196,
        8197,
        8198,
        8199,
        8200,
        8201,
        8202,
        8232,
        8233,
        8239,
        8287,
        12288,
    ];
    if 9 <= u <= 13 {
        assert(all[u - 9] == u);
    } else if u == 32 {
        assert(all[5] == u);
    } else if u == 133 {
        assert(all[6] == u);
    } else if u == 160 {
        assert(all[7] == u);
    } else if u == 5760 {
        assert(all[8] == u);
    } else if 8192 <= u <= 8202 {
        assert(all[u - 8192 + 9] == u);
    } else if u == 8232 {
        assert(all[20] == u);
    } else if u == 8233 {
        assert(all[21] == u);
    } else if u == 8239 {
        assert(all[22] == u);
    } else if u == 8287 {
        assert(all[23] == u);
    } else if u == 12288 {
        assert(all[24] == u);
    }
}

proof fn lemma_trim_front(s: Seq<char>)
    ensures
        exists|k: int| #[trigger]
            s.skip(k) == trim_front(s) && 0 <= k <= s.len() && forall|i: int|
                0 <= i < k ==> is_white(#[trigger] s[i]),
        trim_front(s).len() > 0 ==> !is_white(trim_front(s)[0]),
    decreases s.len(),
{
    if s.len() > 0 && is_white(s[0]) {
        let t = s.drop_first();
        lemma_trim_front(t);
        let k = choose|k: int| #[trigger]
            t.skip(k) == trim_front(t) && 0 <= k <= t.len() && forall|i: int|
                0 <= i < k ==> is_white(#[trigger] t[i]);
        assert(s.skip(k + 1) == t.skip(k));
        assert forall|i: int| 0 <= i < k + 1 implies is_white(#[trigger] s[i]) by {
            if i > 0 {
                assert(t[i - 1] == s[i]);
            }
        }
    } else {
        assert(s.skip(0) == s);
    }
}

proof fn lemma_trim_back(s: Seq<char>)
    ensures
        exists|k: int| #[trigger]
            s.take(k) == trim_back(s) && 0 <= k <= s.len() && forall|i: int|
                k <= i < s.len() ==> is_white(#[trigger] s[i]),
        trim_back(s).len() > 0 ==> !is_white(trim_back(s).last()),
    decreases s.len(),
{
    if s.len() > 0 && is_white(s.last()) {
        let t = s.drop_last();
        lemma_trim_back(t);
        let k = choose|k: int| #[trigger]
            t.take(k) == trim_back(t) && 0 <= k <= t.len() && forall|i: int|
                k <= i < t.len() ==> is_white(#[trigger] t[i]);
        assert(s.take(k) == t.take(k));
        assert forall|i: int| k <= i < s.len() implies is_white(#[trigger] s[i]) by {
            if i < t.len() {
                assert(t[i] == s[i]);
            }
        }
    } else {
        assert(s.take(s.len() as int) == s);
    }
}

/// Trimming takes white space from the two ends and nothing else, and takes all
/// of it: text that begins and ends with something else is what is left of it
/// between any two runs of white space.
pub proof fn what_trimming_leaves(front: Seq<char>, core: Seq<char>, back: Seq<char>)
    requires
        forall|i: int| 0 <= i < front.len() ==> is_white(#[trigger] front[i]),
        forall|i: int| 0 <= i < back.len() ==> is_white(#[trigger] back[i]),
        core.len() > 0 ==> !is_white(core[0]) && !is_white(core.last()),
    ensures
        trimmed(front + core + back) == core,
{
    let s = front + core + back;
    let t = trim_front(s);
    lemma_trim_front(s);
    lemma_trim_back(t);
    let k = choose|k: int| #[trigger]
        s.skip(k) == trim_front(s) && 0 <= k <= s.len() && forall|i: int|
            0 <= i < k ==> is_white(#[trigger] s[i]);
    let m = choose|m: int| #[trigger]
        t.take(m) == trim_back(t) && 0 <= m <= t.len() && forall|i: int|
            m <= i < t.len() ==> is_white(#[trigger] t[i]);
    let f = front.len() as int;
    let c = core.len() as int;
    if c > 0 {
        assert(s[f] == core[0]);
        assert(k <= f);
        if k < f {
            assert(t[0] == s[k] && s[k] == front[k]);
        }
        assert(k == f);
        assert(t[c - 1] == core.last());
        assert(m >= c);
        if m > c {
            assert(t.take(m).last() == t[m - 1]);
            assert(t[m - 1] == back[m - 1 - c]);
        }
        assert(t.take(m) == core);
    } else {
        assert forall|i: int| 0 <= i < s.len() implies is_white(#[trigger] s[i]) by {
            if i < f {
                assert(s[i] == front[i]);
            } else {
                assert(s[i] == back[i - f]);
            }
        }
        if k < s.len() {
            assert(t[0] == s[k]);
        }
        assert(t.len() == 0);
        assert(trimmed(s) == core);
    }
}

/// Decimal digits, one by one: a number below ten is one character, and any
/// other ends in its last digit behind the digits of the tens.
pub proof fn decimal_digit_by_digit(tens: nat, ones: nat)
    requires
        ones < 10,
    ensures
        decimal(ones) == seq!["0123456789"@[ones as int]],
        tens > 0 ==> decimal(10 * tens + ones) == decimal(tens) + seq![
            "0123456789"@[ones as int],
        ],
        decimal_value(Seq::empty()) == 0,
        forall|s: Seq<char>| #[trigger]
            decimal_value(s.push("0123456789"@[ones as int])) == 10 * decimal_value(s) + ones,
{
    reveal_strlit("0123456789");
    assert(digit_char(ones) == "0123456789"@[ones as int]);
    if tens > 0 {
        assert((10 * tens + ones) / 10 == tens && (10 * tens + ones) % 10 == ones);
        assert(decimal(10 * tens + ones) == decimal(tens) + seq!["0123456789"@[ones as int]]);
    }
    assert forall|s: Seq<char>| #[trigger]
        decimal_value(s.push("0123456789"@[ones as int])) == 10 * decimal_value(s) + ones by {
        assert(s.push("0123456789"@[ones as int]).drop_last() == s);
    }
}

/// A port is one to any number of digits, with or without a plus sign, that
/// denote at most 65535: so every port in decimal is read as itself, with a plus
/// sign too, and as many zeros may stand in front. Nothing is read of text
/// without digits, with anything but digits, or with digits that denote more.
pub proof fn what_a_port_is(s: Seq<char>, port: u16)
    ensures
        port_number(decimal(port as nat)) == Some(port),
        port_number(seq!['+'] + decimal(port as nat)) == Some(port),
        port_number(Seq::empty()) is None,
        port_number(seq!['+']) is None,
        forall|i: int|
            0 <= i < s.len() && !("0123456789"@.contains(#[trigger] s[i])) && (i > 0 || s[i] != '+')
                ==> port_number(s) is None,
        s.len() > 0 && (forall|i: int|
            0 <= i < s.len() ==> "0123456789"@.contains(#[trigger] s[i])) ==> {
            &&& decimal_value(s) <= 65535 ==> port_number(s) == Some(decimal_value(s) as u16)
            &&& decimal_value(s) <= 65535 ==> port_number(seq!['+'] + s) == Some(
                decimal_value(s) as u16,
            )
            &&& decimal_value(s) > 65535 ==> port_number(s) is None
            &&& decimal_value(s) > 65535 ==> port_number(seq!['+'] + s) is None
        },
{
    let digits = decimal(port as nat);
    reveal_strlit("0123456789");
    lemma_decimal(port as nat);
    assert(is_digit(digits[0]));
    assert((seq!['+'] + digits).drop_first() == digits);
    assert((seq!['+'] + s).drop_first() == s);
    assert(seq!['+'].drop_first() == Seq::<char>::empty());
    assert forall|c: char| #[trigger] is_digit(c) == "0123456789"@.contains(c) by {
        if is_digit(c) {
            assert("0123456789"@[c as int - 48] == c);
        }
    }
    assert forall|i: int|
        0 <= i < s.len() && !("0123456789"@.contains(#[trigger] s[i])) && (i > 0 || s[i]
            != '+') implies port_number(s) is None by {
        assert(!is_digit(s[i]));
        if s[0] == '+' {
            assert(without_plus(s)[i - 1] == s[i]);
        }
    }
    if s.len() > 0 && (forall|i: int|
        0 <= i < s.len() ==> "0123456789"@.contains(#[trigger] s[i])) {
        assert(all_digits(s)) by {
            assert forall|i: int| 0 <= i < s.len() implies is_digit(#[trigger] s[i]) by {
                assert("0123456789"@.contains(s[i]));
            }
        }
        assert(is_digit(s[0]));
    }
}

/// Zeros in front do not change what digits denote.
pub proof fn leading_zeros_do_not_count(s: Seq<char>)
    ensures
        decimal_value(seq!['0'] + s) == decimal_value(s),
    decreases s.len(),
{
    if s.len() > 0 {
        leading_zeros_do_not_count(s.drop_last());
        assert((seq!['0'] + s).drop_last() == seq!['0'] + s.drop_last());
    } else {
        reveal_with_fuel(decimal_value, 2);
        assert((seq!['0'] + s).drop_last() == Seq::<char>::empty());
    }
}

/// Hexadecimal digits, one by one: a number below 256 is two characters, and any
/// other ends in its last digit behind the digits of the rest.
pub proof fn hexadecimal_digit_by_digit(high: nat, low: nat)
    requires
        low < 16,
    ensures
        high < 16 ==> hex_pair_text(16 * high + low) == seq![
            "0123456789ABCDEF"@[high as int],
            "0123456789ABCDEF"@[low as int],
        ],
        high >= 16 ==> hex_pair_text(16 * high + low) == hex_pair_text(high) + seq![
            "0123456789ABCDEF"@[low as int],
        ],
{
    reveal_strlit("0123456789ABCDEF");
    assert((16 * high + low) / 16 == high && (16 * high + low) % 16 == low);
    assert(hex_char(low) == "0123456789ABCDEF"@[low as int]);
    if high < 16 {
        assert(hex_char(high) == "0123456789ABCDEF"@[high as int]);
    }
    assert(high >= 16 ==> hex_pair_text(16 * high + low) == hex_pair_text(high) + seq![
        "0123456789ABCDEF"@[low as int],
    ]);
}

} // verus!

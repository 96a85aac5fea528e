//! Text built and taken apart character by character.

use vstd::prelude::*;

verus! {

/// `String::push` appends one character at the end of the text.
pub assume_specification[ String::push ](s: &mut String, c: char)
    ensures
        final(s)@ == old(s)@.push(c),
;

/// The character of a digit below sixteen, letters in lower case.
pub open spec fn digit_char(d: int) -> char {
    if d < 10 {
        (48 + d) as char
    } else {
        (87 + d) as char
    }
}

/// The value of a hexadecimal digit of either case.
pub open spec fn hex_value(c: char) -> Option<int> {
    if '0' <= c && c <= '9' {
        Some(c as int - 48)
    } else if 'a' <= c && c <= 'f' {
        Some(c as int - 87)
    } else if 'A' <= c && c <= 'F' {
        Some(c as int - 55)
    } else {
        None
    }
}

/// Decimal notation without leading zeros.
pub open spec fn decimal(n: nat) -> Seq<char>
    decreases n,
{
    if n < 10 {
        seq![digit_char(n as int)]
    } else {
        decimal(n / 10).push(digit_char((n % 10) as int))
    }
}

/// Lower case hexadecimal notation without leading zeros.
pub open spec fn hexadecimal(n: nat) -> Seq<char>
    decreases n,
{
    if n < 16 {
        seq![digit_char(n as int)]
    } else {
        hexadecimal(n / 16).push(digit_char((n % 16) as int))
    }
}

/// Two lower case hexadecimal digits for each byte.
pub open spec fn hex_text(bytes: Seq<u8>) -> Seq<char> {
    Seq::new(
        2 * bytes.len(),
        |i: int|
            if i % 2 == 0 {
                digit_char(bytes[i / 2] as int / 16)
            } else {
                digit_char(bytes[i / 2] as int % 16)
            },
    )
}

/// The text is an even number of hexadecimal digits.
pub open spec fn is_hex_text(s: Seq<char>) -> bool {
    s.len() % 2 == 0 && forall|i: int| 0 <= i < s.len() ==> hex_value(#[trigger] s[i]) is Some
}

/// The bytes that pairs of hexadecimal digits stand for.
pub open spec fn hex_bytes(s: Seq<char>) -> Seq<u8> {
    Seq::new(
        s.len() / 2,
        |i: int| (hex_value(s[2 * i])->0 * 16 + hex_value(s[2 * i + 1])->0) as u8,
    )
}

/// `hex::encode`: every byte becomes its two lower case hexadecimal digits.
#[verifier::external_body]
pub(crate) fn hex_encode(bytes: &[u8]) -> (s: String)
    ensures
        s@ == hex_text(bytes@),
{
    hex::encode(bytes)
}

/// What is wrong with a text that is no pairs of hexadecimal digits, in words.
pub uninterp spec fn hex_fault_of(s: Seq<char>) -> Seq<char>;

/// `hex::decode`: succeeds on an even number of hexadecimal digits of either
/// case and on nothing else, and pairs the digits up into bytes. The message of
/// its error depends on the text alone.
#[verifier::external_body]
pub(crate) fn hex_decode(s: &str) -> (r: Result<Vec<u8>, String>)
    ensures
        r is Ok <==> is_hex_text(s@),
        r is Ok ==> r->Ok_0@ == hex_bytes(s@),
        r is Err ==> r->Err_0@ == hex_fault_of(s@),
{
    hex::decode(s).map_err(|e| format!("{}", e))
}

/// A byte sequence survives being written as hexadecimal digits and read back.
pub proof fn hex_text_round_trip(bytes: Seq<u8>)
    ensures
        is_hex_text(hex_text(bytes)),
        hex_bytes(hex_text(bytes)) == bytes,
{
    let s = hex_text(bytes);
    assert(s.len() / 2 == bytes.len());
    assert forall|i: int| 0 <= i < bytes.len() implies hex_bytes(s)[i] == bytes[i] by {
        assert((2 * i + 1) / 2 == i);
        assert((2 * i + 1) % 2 == 1);
    }
    assert(hex_bytes(s) =~= bytes);
}

/// Unicode white space.
pub open spec fn is_white_space(c: char) -> bool {
    let n = c as int;
    ||| 9 <= n <= 13
    ||| n == 32
    ||| n == 0x85
    ||| n == 0xa0
    ||| n == 0x1680
    ||| 0x2000 <= n <= 0x200a
    ||| n == 0x2028
    ||| n == 0x2029
    ||| n == 0x202f
    ||| n == 0x205f
    ||| n == 0x3000
}

/// The text without the white space at its front.
pub open spec fn trim_front(s: Seq<char>) -> Seq<char>
    decreases s.len(),
{
    if s.len() > 0 && is_white_space(s[0]) {
        trim_front(s.subrange(1, s.len() as int))
    } else {
        s
    }
}

/// The text without the white space at its back.
pub open spec fn trim_back(s: Seq<char>) -> Seq<char>
    decreases s.len(),
{
    if s.len() > 0 && is_white_space(s[s.len() - 1]) {
        trim_back(s.subrange(0, s.len() - 1))
    } else {
        s
    }
}

/// The text without the white space around it.
pub open spec fn trimmed(s: Seq<char>) -> Seq<char> {
    trim_back(trim_front(s))
}

/// The views of a list of texts.
pub open spec fn texts(v: Seq<String>) -> Seq<Seq<char>> {
    Seq::new(v.len(), |i: int| v[i]@)
}

/// The view of an optional text.
pub open spec fn opt_text(o: Option<String>) -> Option<Seq<char>> {
    match o {
        Some(s) => Some(s@),
        None => None,
    }
}

pub fn white_space(c: char) -> (b: bool)
    ensures
        b == is_white_space(c),
{
    let n: u32 = c as u32;
    (9 <= n && n <= 13) || n == 32 || n == 0x85 || n == 0xa0 || n == 0x1680 || (0x2000 <= n && n
        <= 0x200a) || n == 0x2028 || n == 0x2029 || n == 0x202f || n == 0x205f || n == 0x3000
}

/// The characters of a text.
pub fn chars_of(s: &str) -> (v: Vec<char>)
    ensures
        v@ == s@,
{
    let mut v: Vec<char> = Vec::new();
    for c in it: s.chars()
        invariant
            v@ == s@.subrange(0, it.index() as int),
            it.seq() == s@,
    {
        v.push(c);
    }
    assert(s@.subrange(0, s@.len() as int) =~= s@);
    v
}

/// The text of a slice of characters.
pub fn text_of(v: &[char]) -> (s: String)
    ensures
        s@ == v@,
{
    let mut s = String::new();
    let n: usize = v.len();
    for i in 0..n
        invariant
            n == v@.len(),
            s@ == v@.subrange(0, i as int),
    {
        s.push(v[i]);
        assert(v@.subrange(0, i as int).push(v@[i as int]) =~= v@.subrange(0, i + 1));
    }
    assert(v@.subrange(0, n as int) =~= v@);
    s
}

/// Same text.
pub fn same_text(a: &str, b: &str) -> (r: bool)
    ensures
        r == (a@ == b@),
{
    let x = a.to_owned();
    let y = b.to_owned();
    x == y
}

/// Whether a list of texts holds a given one.
pub fn list_has(list: &Vec<String>, s: &str) -> (r: bool)
    ensures
        r == texts(list@).contains(s@),
{
    let n: usize = list.len();
    for i in 0..n
        invariant
            n == list@.len(),
            forall|k: int| 0 <= k < i ==> #[trigger] list@[k]@ != s@,
    {
        if same_text(list[i].as_str(), s) {
            assert(texts(list@)[i as int] == s@);
            return true;
        }
    }
    assert(!texts(list@).contains(s@)) by {
        if texts(list@).contains(s@) {
            let k = choose|k: int| 0 <= k < texts(list@).len() && texts(list@)[k] == s@;
            assert(list@[k]@ == s@);
        }
    }
    false
}

pub fn digit(d: u8) -> (c: char)
    requires
        d < 16,
    ensures
        c == digit_char(d as int),
{
    if d < 10 {
        (48 + d) as char
    } else {
        (87 + d) as char
    }
}

/// Appends the decimal notation of a number.
pub fn push_decimal(out: &mut String, n: u64)
    ensures
        final(out)@ == old(out)@ + decimal(n as nat),
    decreases n,
{
    let ghost start = out@;
    if n < 10 {
        out.push(digit(n as u8));
        assert(start.push(digit_char(n as int)) =~= start + decimal(n as nat));
    } else {
        push_decimal(out, n / 10);
        out.push(digit((n % 10) as u8));
        assert(out@ =~= start + decimal(n as nat));
    }
}

/// Appends the lower case hexadecimal notation of a number.
pub fn push_hexadecimal(out: &mut String, n: u16)
    ensures
        final(out)@ == old(out)@ + hexadecimal(n as nat),
    decreases n,
{
    let ghost start = out@;
    if n < 16 {
        out.push(digit(n as u8));
        assert(start.push(digit_char(n as int)) =~= start + hexadecimal(n as nat));
    } else {
        push_hexadecimal(out, n / 16);
        out.push(digit((n % 16) as u8));
        assert(out@ =~= start + hexadecimal(n as nat));
    }
}

/// The text without the white space around it.
pub fn trim(s: &str) -> (r: String)
    ensures
        r@ == trimmed(s@),
{
    let v = chars_of(s);
    let n: usize = v.len();
    let mut i: usize = 0;
    assert(v@.subrange(0, n as int) =~= v@);
    while i < n && white_space(v[i])
        invariant
            n == v@.len(),
            i <= n,
            v@ == s@,
            trim_front(s@) == trim_front(v@.subrange(i as int, n as int)),
        decreases n - i,
    {
        assert(v@.subrange(i as int, n as int).subrange(1, n - i) =~= v@.subrange(i + 1, n as int));
        i += 1;
    }
    let mut j: usize = n;
    while j > i && white_space(v[j - 1])
        invariant
            n == v@.len(),
            i <= j <= n,
            trim_back(trim_front(s@)) == trim_back(v@.subrange(i as int, j as int)),
        decreases j,
    {
        assert(v@.subrange(i as int, j as int).subrange(0, j - i - 1) =~= v@.subrange(
            i as int,
            j - 1,
        ));
        j -= 1;
    }
    let sl: &[char] = v.as_slice();
    text_of(vstd::slice::slice_subrange(sl, i, j))
}

/// The value of a decimal number that is digits alone.
pub open spec fn digits_value(s: Seq<char>) -> nat
    decreases s.len(),
{
    if s.len() == 0 {
        0
    } else {
        digits_value(s.drop_last()) * 10 + (s.last() as int - 48) as nat
    }
}

/// Every character is a decimal digit, and there is at least one.
pub open spec fn all_digits(s: Seq<char>) -> bool {
    s.len() > 0 && forall|i: int| 0 <= i < s.len() ==> '0' <= #[trigger] s[i] && s[i] <= '9'
}

/// The digits of a number after its optional plus sign.
pub open spec fn unsigned_digits(s: Seq<char>) -> Seq<char> {
    if s.len() > 0 && s[0] == '+' {
        s.subrange(1, s.len() as int)
    } else {
        s
    }
}

/// What a text reads as, taken as an unsigned number with an optional plus sign.
pub open spec fn number(s: Seq<char>, max: nat) -> Option<nat> {
    let d = unsigned_digits(s);
    if all_digits(d) && digits_value(d) <= max {
        Some(digits_value(d))
    } else {
        None
    }
}

proof fn digits_value_grows(s: Seq<char>, n: int)
    requires
        all_digits(s),
        0 <= n <= s.len(),
    ensures
        digits_value(s.subrange(0, n)) <= digits_value(s),
    decreases s.len() - n,
{
    if n == s.len() {
        assert(s.subrange(0, n) =~= s);
    } else {
        digits_value_grows(s, n + 1);
        assert(s.subrange(0, n + 1).drop_last() =~= s.subrange(0, n));
    }
}

/// Reads an unsigned number no larger than `max`.
pub fn parse_number(s: &[char], max: u64) -> (r: Option<u64>)
    ensures
        match r {
            Some(v) => number(s@, max as nat) == Some(v as nat),
            None => number(s@, max as nat) is None,
        },
{
    let ghost d = unsigned_digits(s@);
    let n: usize = s.len();
    let start: usize = if n > 0 && s[0] == '+' {
        1
    } else {
        0
    };
    assert(d =~= s@.subrange(start as int, n as int));
    if start == n {
        return None;
    }
    let mut value: u128 = 0;
    let mut i: usize = start;
    while i < n
        invariant
            n == s@.len(),
            start <= i <= n,
            start < n,
            d == s@.subrange(start as int, n as int),
            value <= max,
            value == digits_value(d.subrange(0, i - start)),
            forall|k: int| 0 <= k < i - start ==> '0' <= #[trigger] d[k] && d[k] <= '9',
            d == unsigned_digits(s@),
        decreases n - i,
    {
        let c = s[i];
        assert(d[i - start] == c);
        if c < '0' || c > '9' {
            return None;
        }
        assert(d.subrange(0, i + 1 - start).drop_last() =~= d.subrange(0, i - start));
        assert(d.subrange(0, i + 1 - start).last() == c);
        value = value * 10 + (c as u128 - 48);
        if value > max as u128 {
            proof {
                if all_digits(d) {
                    digits_value_grows(d, i + 1 - start);
                }
            }
            return None;
        }
        i += 1;
    }
    assert(d.subrange(0, n - start) =~= d);
    Some(value as u64)
}

/// A text cut at a character.
pub open spec fn split_at_char(s: Seq<char>, c: char) -> Seq<Seq<char>>
    decreases s.len(),
{
    if s.len() == 0 {
        seq![Seq::empty()]
    } else {
        let before = split_at_char(s.drop_last(), c);
        if s.last() == c {
            before.push(Seq::empty())
        } else {
            before.drop_last().push(before.last().push(s.last()))
        }
    }
}

/// Cuts a text at a character.
pub fn split_on(all: &[char], c: char) -> (r: Vec<Vec<char>>)
    ensures
        r@.len() == split_at_char(all@, c).len(),
        r@.len() > 0,
        forall|i: int| 0 <= i < r@.len() ==> (#[trigger] r@[i])@ == split_at_char(all@, c)[i],
{
    let ghost sv = all@;
    let n: usize = all.len();
    let mut r: Vec<Vec<char>> = Vec::new();
    let first: Vec<char> = Vec::new();
    r.push(first);
    assert(sv.subrange(0, 0) =~= Seq::<char>::empty());
    assert(r@[0]@ =~= Seq::<char>::empty());
    for i in 0..n
        invariant
            n == all@.len(),
            all@ == sv,
            r@.len() == split_at_char(sv.subrange(0, i as int), c).len(),
            r@.len() > 0,
            forall|k: int|
                0 <= k < r@.len() ==> (#[trigger] r@[k])@ == split_at_char(
                    sv.subrange(0, i as int),
                    c,
                )[k],
    {
        let ghost longer = sv.subrange(0, i + 1);
        assert(longer.drop_last() =~= sv.subrange(0, i as int));
        assert(longer.last() == sv[i as int]);
        let ghost before = split_at_char(sv.subrange(0, i as int), c);
        if all[i] == c {
            let next: Vec<char> = Vec::new();
            assert(next@ =~= Seq::<char>::empty());
            r.push(next);
        } else {
            let last: usize = r.len() - 1;
            assert(r@[last as int]@ == before[last as int]);
            r[last].push(all[i]);
        }
    }
    assert(sv.subrange(0, n as int) =~= sv);
    r
}

proof fn trims_front(s: Seq<char>)
    ensures
        trim_front(s).len() <= s.len(),
        trim_front(s) == s.subrange(s.len() - trim_front(s).len(), s.len() as int),
        forall|k: int|
            0 <= k < s.len() - trim_front(s).len() ==> is_white_space(#[trigger] s[k]),
        trim_front(s).len() > 0 ==> !is_white_space(trim_front(s)[0]),
    decreases s.len(),
{
    if s.len() > 0 && is_white_space(s[0]) {
        let rest = s.subrange(1, s.len() as int);
        trims_front(rest);
        let t = trim_front(s);
        assert(t =~= s.subrange(s.len() - t.len(), s.len() as int));
        assert forall|k: int| 0 <= k < s.len() - t.len() implies is_white_space(#[trigger] s[k]) by {
            if k > 0 {
                assert(rest[k - 1] == s[k]);
            }
        }
    } else {
        assert(s =~= s.subrange(0, s.len() as int));
    }
}

proof fn trims_back(s: Seq<char>)
    ensures
        trim_back(s).len() <= s.len(),
        trim_back(s) == s.subrange(0, trim_back(s).len() as int),
        forall|k: int| trim_back(s).len() <= k < s.len() ==> is_white_space(#[trigger] s[k]),
        trim_back(s).len() > 0 ==> !is_white_space(trim_back(s).last()),
    decreases s.len(),
{
    if s.len() > 0 && is_white_space(s[s.len() - 1]) {
        let rest = s.subrange(0, s.len() - 1);
        trims_back(rest);
        let t = trim_back(s);
        assert(t =~= s.subrange(0, t.len() as int));
        assert forall|k: int| t.len() <= k < s.len() implies is_white_space(#[trigger] s[k]) by {
            if k < s.len() - 1 {
                assert(rest[k] == s[k]);
            }
        }
    } else {
        assert(s =~= s.subrange(0, s.len() as int));
    }
}

/// Trimming takes blanks off both ends of a text, all that there are and nothing else.
pub proof fn trimming_takes_blanks_off_both_ends(s: Seq<char>) -> (i: int)
    ensures
        0 <= i,
        i + trimmed(s).len() <= s.len(),
        trimmed(s) == s.subrange(i, i + trimmed(s).len()),
        forall|k: int|
            0 <= k < s.len() && (k < i || k >= i + trimmed(s).len()) ==> is_white_space(
                #[trigger] s[k],
            ),
        trimmed(s).len() > 0 ==> !is_white_space(trimmed(s)[0]) && !is_white_space(
            trimmed(s).last(),
        ),
{
    trims_front(s);
    let f = trim_front(s);
    trims_back(f);
    let t = trimmed(s);
    let i = s.len() - f.len();
    assert(t =~= s.subrange(i, i + t.len()));
    assert forall|k: int| 0 <= k < s.len() && (k < i || k >= i + t.len()) implies is_white_space(
        #[trigger] s[k],
    ) by {
        if k >= i + t.len() {
            assert(f[k - i] == s[k]);
        }
    }
    if t.len() > 0 {
        assert(t[0] == f[0]);
    }
    i
}

/// Blanks are what a space, a tab or the end of a line is; letters, digits and signs are none.
pub proof fn visible_characters_are_no_blanks(c: char)
    ensures
        is_white_space(' ') && is_white_space('\n') && is_white_space('\t') && is_white_space('\r'),
        33 <= c as int <= 126 ==> !is_white_space(c),
{
}

/// The pieces of a text with the separator between them.
pub open spec fn joined(pieces: Seq<Seq<char>>, c: char) -> Seq<char>
    decreases pieces.len(),
{
    if pieces.len() == 0 {
        Seq::empty()
    } else if pieces.len() == 1 {
        pieces[0]
    } else {
        joined(pieces.drop_last(), c) + seq![c] + pieces.last()
    }
}

/// The pieces of a text, put together again with the separator, are the text; no piece holds
/// the separator.
pub proof fn pieces_make_up_the_text(s: Seq<char>, c: char)
    ensures
        split_at_char(s, c).len() > 0,
        joined(split_at_char(s, c), c) == s,
        forall|i: int, k: int|
            #![trigger split_at_char(s, c)[i][k]]
            0 <= i < split_at_char(s, c).len() && 0 <= k < split_at_char(s, c)[i].len()
                ==> split_at_char(s, c)[i][k] != c,
    decreases s.len(),
{
    let all = split_at_char(s, c);
    if s.len() == 0 {
        assert(joined(all, c) =~= s);
    } else {
        let short = s.drop_last();
        pieces_make_up_the_text(short, c);
        let before = split_at_char(short, c);
        if s.last() == c {
            assert(all.drop_last() =~= before);
            assert(joined(all, c) =~= s);
        } else {
            let front = before.drop_last();
            assert(all.drop_last() =~= front);
            assert(all.last() == before.last().push(s.last()));
            if before.len() == 1 {
                assert(joined(all, c) =~= s);
            } else {
                let head = joined(front, c) + seq![c];
                assert(joined(before, c) == head + before.last());
                assert(all.len() > 1);
                assert(joined(all, c) == head + all.last());
                assert(head + before.last().push(s.last()) =~= (head + before.last()).push(
                    s.last(),
                ));
                assert(short.push(s.last()) =~= s);
            }
        }
        assert forall|i: int, k: int|
            #![trigger all[i][k]]
            0 <= i < all.len() && 0 <= k < all[i].len() implies all[i][k] != c by {
            if s.last() == c {
                if i < before.len() {
                    assert(all[i] == before[i]);
                    assert(before[i][k] != c);
                }
            } else if i < before.len() - 1 {
                assert(all[i] == before[i]);
                assert(before[i][k] != c);
            } else if k < before.last().len() {
                assert(before[i][k] != c);
            }
        }
    }
}

/// A number is read from its digits, with a plus before them or without; anything else is no
/// number, and neither is one above the limit.
pub proof fn numbers_are_read_from_digits(s: Seq<char>, max: nat)
    ensures
        s.len() == 0 ==> number(s, max) is None,
        number(s, max) is Some ==> number(s, max)->0 <= max,
        all_digits(s) && digits_value(s) <= max ==> number(s, max) == Some(digits_value(s)),
        all_digits(s) && digits_value(s) <= max ==> number(seq!['+'] + s, max) == Some(
            digits_value(s),
        ),
        all_digits(s) && digits_value(s) > max ==> number(s, max) is None,
        s.len() > 0 && s[0] == '-' ==> number(s, max) is None,
{
    if all_digits(s) {
        assert('0' <= s[0] && s[0] <= '9');
        let t = seq!['+'] + s;
        assert(t.subrange(1, t.len() as int) =~= s);
    }
    if s.len() > 0 && s[0] == '-' {
        if all_digits(s) {
            assert('0' <= s[0]);
        }
    }
}

/// Each digit further to the right counts a tenth.
pub proof fn digits_count_by_their_place(s: Seq<char>, d: char)
    requires
        '0' <= d <= '9',
    ensures
        digits_value(s.push(d)) == 10 * digits_value(s) + (d as int - 48),
        digits_value(Seq::<char>::empty()) == 0,
        digit_char(0) == '0' && digit_char(9) == '9' && digit_char(10) == 'a' && digit_char(15)
            == 'f',
{
    assert(s.push(d).drop_last() =~= s);
}

} // verus!

//! Names of the photo library's folders and files: folder `NNNAPPLE`
//! holds the images numbered from `(NNN - 100) * 1000` up to a thousand
//! more, and an image file is named `IMG_<number>.<extension>`.
use vstd::prelude::*;
use core::ops::Range;
use vstd::utf8::encode_utf8;

verus! {

/// `c` has Unicode's White_Space property.
pub open spec fn is_white_space(c: char) -> bool {
    let u = c as u32;
    ||| 0x9 <= u <= 0xd
    ||| u == 0x20
    ||| u == 0x85
    ||| u == 0xa0
    ||| u == 0x1680
    ||| 0x2000 <= u <= 0x200a
    ||| u == 0x2028
    ||| u == 0x2029
    ||| u == 0x202f
    ||| u == 0x205f
    ||| u == 0x3000
}

/// `s` without its leading white space.
pub open spec fn trim_start(s: Seq<char>) -> Seq<char>
    decreases s.len(),
{
    if s.len() > 0 && is_white_space(s[0]) {
        trim_start(s.drop_first())
    } else {
        s
    }
}

/// `s` without its trailing white space.
pub open spec fn trim_end(s: Seq<char>) -> Seq<char>
    decreases s.len(),
{
    if s.len() > 0 && is_white_space(s.last()) {
        trim_end(s.drop_last())
    } else {
        s
    }
}

/// `s` without its leading and trailing white space.
pub open spec fn trimmed(s: Seq<char>) -> Seq<char> {
    trim_end(trim_start(s))
}

/// Relies on std's `str::trim`, which removes the leading and trailing
/// characters with the White_Space property.
#[verifier::external_body]
fn trim(s: &str) -> (r: &str)
    ensures
        r@ == trimmed(s@),
{
    s.trim()
}

/// The bytes of `APPLE`.
pub open spec fn apple() -> Seq<u8> {
    seq![65u8, 80, 80, 76, 69]
}

/// The bytes of `IMG_`.
pub open spec fn img_prefix() -> Seq<u8> {
    seq![73u8, 77, 71, 95]
}

pub open spec fn is_digit(b: u8) -> bool {
    48 <= b <= 57
}

pub open spec fn all_digits(d: Seq<u8>) -> bool {
    forall|i: int| 0 <= i < d.len() ==> is_digit(#[trigger] d[i])
}

/// The number that the decimal digits `d` write.
pub open spec fn digits_value(d: Seq<u8>) -> nat
    decreases d.len(),
{
    if d.len() == 0 {
        0
    } else {
        digits_value(d.drop_last()) * 10 + (d.last() - 48) as nat
    }
}

/// The bytes after an optional leading `+`.
pub open spec fn unsigned_digits(s: Seq<u8>) -> Seq<u8> {
    if s.len() > 0 && s[0] == 43 {
        s.drop_first()
    } else {
        s
    }
}

/// What `u16::from_str` gives on the bytes `s`: an optional `+`, then one
/// or more decimal digits writing a number that fits in 16 bits.
pub open spec fn parse_u16(s: Seq<u8>) -> Option<u16> {
    let d = unsigned_digits(s);
    if d.len() > 0 && all_digits(d) && digits_value(d) <= 0xffff {
        Some(digits_value(d) as u16)
    } else {
        None
    }
}

/// A number's digits never write less than the number its first digits
/// write.
proof fn lemma_digits_prefix(d: Seq<u8>, k: int)
    requires
        all_digits(d),
        0 <= k <= d.len(),
    ensures
        digits_value(d.take(k)) <= digits_value(d),
    decreases d.len(),
{
    if k < d.len() {
        assert(d.drop_last().take(k) =~= d.take(k));
        lemma_digits_prefix(d.drop_last(), k);
    } else {
        assert(d.take(k) =~= d);
    }
}

/// Parses a decimal `u16` as `u16::from_str` does.
pub fn parse_u16_bytes(s: &[u8]) -> (r: Option<u16>)
    ensures
        r == parse_u16(s@),
{
    let start: usize = if s.len() > 0 && s[0] == 43 { 1 } else { 0 };
    let ghost d = unsigned_digits(s@);
    assert(d =~= s@.skip(start as int));
    if start == s.len() {
        assert(d.len() == 0);
        return None;
    }
    let mut acc: u32 = 0;
    let mut i: usize = start;
    while i < s.len()
        invariant
            start <= i <= s.len(),
            d == unsigned_digits(s@),
            d == s@.skip(start as int),
            acc <= 0xffff,
            all_digits(d.take(i - start)),
            acc as nat == digits_value(d.take(i - start)),
        decreases s.len() - i,
    {
        let b = s[i];
        if b < 48 || b > 57 {
            assert(d[i - start] == s@[i as int]);
            assert(!all_digits(d));
            assert(parse_u16(s@) is None);
            return None;
        }
        let ghost k = i - start;
        assert(d.take(k + 1).drop_last() =~= d.take(k));
        acc = acc * 10 + (b - 48) as u32;
        i += 1;
        assert(all_digits(d.take(i - start)));
        if acc > 0xffff {
            proof {
                if all_digits(d) {
                    lemma_digits_prefix(d, i - start);
                }
                assert(parse_u16(s@) is None);
            }
            return None;
        }
    }
    assert(d.take(i - start) =~= d);
    Some(acc as u16)
}

/// The number a folder name gives: the trimmed name ends in `APPLE` and
/// what comes before it parses as a `u16`.
pub open spec fn folder_number(b: Seq<u8>) -> Option<u16> {
    if b.len() >= 5 && b.skip(b.len() - 5) == apple() {
        parse_u16(b.take(b.len() - 5))
    } else {
        None
    }
}

/// The index of the first `.` in `s`, or its length.
pub open spec fn first_dot(s: Seq<u8>) -> nat
    decreases s.len(),
{
    if s.len() == 0 || s[0] == 46 {
        0
    } else {
        1 + first_dot(s.drop_first())
    }
}

/// The number a file name gives: the trimmed name starts with `IMG_` and
/// what follows, up to the first `.`, parses as a `u16`.
pub open spec fn file_number(b: Seq<u8>) -> Option<u16> {
    if b.len() >= 4 && b.take(4) == img_prefix() {
        let rest = b.skip(4);
        parse_u16(rest.take(first_dot(rest) as int))
    } else {
        None
    }
}

/// The range of image numbers that a folder holds. Folders numbered from
/// 100 to 164 hold ranges that fit in 16 bits; any other name has none.
pub fn folder_to_num(name: &str) -> (r: Option<Range<u16>>)
    ensures
        r is Some <==> (folder_number(encode_utf8(trimmed(name@))) matches Some(n) && 100 <= n <= 164),
        r matches Some(range) ==> folder_number(encode_utf8(trimmed(name@))) matches Some(n)
            && range.start == (n - 100) * 1000 && range.end == range.start + 1000,
{
    let t = trim(name);
    let b = t.as_bytes();
    proof {
        assert(b@ == encode_utf8(trimmed(name@)));
    }
    let n = b.len();
    if n < 5 || b[n - 5] != 65 || b[n - 4] != 80 || b[n - 3] != 80 || b[n - 2] != 76 || b[n - 1]
        != 69 {
        proof {
            if n >= 5 {
                if b@.skip(n - 5) == apple() {
                    assert(b@.skip(n - 5)[0] == b@[n - 5]);
                    assert(b@.skip(n - 5)[1] == b@[n - 4]);
                    assert(b@.skip(n - 5)[2] == b@[n - 3]);
                    assert(b@.skip(n - 5)[3] == b@[n - 2]);
                    assert(b@.skip(n - 5)[4] == b@[n - 1]);
                }
            }
        }
        return None;
    }
    assert(b@.skip(n - 5) =~= apple());
    let head = vstd::slice::slice_subrange(b, 0, n - 5);
    assert(head@ =~= b@.take(n - 5));
    match parse_u16_bytes(head) {
        Some(num) => if 100 <= num && num <= 164 {
            let base: u16 = (num - 100) * 1000;
            Some(base..base + 1000)
        } else {
            None
        },
        None => None,
    }
}

/// The index of the first `.` in `s`, or its length.
fn find_dot(s: &[u8]) -> (r: usize)
    ensures
        r == first_dot(s@),
        r <= s@.len(),
{
    let mut i: usize = 0;
    assert(s@.skip(0) =~= s@);
    while i < s.len() && s[i] != 46
        invariant
            i <= s.len(),
            first_dot(s@) == i + first_dot(s@.skip(i as int)),
        decreases s.len() - i,
    {
        assert(s@.skip(i as int).drop_first() =~= s@.skip(i + 1));
        i += 1;
    }
    i
}

/// The number of an image file named `IMG_<number>` with an optional
/// extension.
pub fn file_to_num(name: &str) -> (r: Option<u16>)
    ensures
        r == file_number(encode_utf8(trimmed(name@))),
{
    let t = trim(name);
    let b = t.as_bytes();
    proof {
        assert(b@ == encode_utf8(trimmed(name@)));
    }
    let n = b.len();
    if n < 4 || b[0] != 73 || b[1] != 77 || b[2] != 71 || b[3] != 95 {
        proof {
            if n >= 4 && b@.take(4) == img_prefix() {
                assert(b@.take(4)[0] == b@[0] && b@.take(4)[1] == b@[1] && b@.take(4)[2] == b@[2]
                    && b@.take(4)[3] == b@[3]);
            }
        }
        return None;
    }
    assert(b@.take(4) =~= img_prefix());
    let rest = vstd::slice::slice_subrange(b, 4, n);
    let dot = find_dot(rest);
    let before = vstd::slice::slice_subrange(rest, 0, dot);
    assert(before@ =~= rest@.take(dot as int));
    parse_u16_bytes(before)
}

pub open spec fn digit_char(d: nat) -> char {
    if d == 0 {
        '0'
    } else if d == 1 {
        '1'
    } else if d == 2 {
        '2'
    } else if d == 3 {
        '3'
    } else if d == 4 {
        '4'
    } else if d == 5 {
        '5'
    } else if d == 6 {
        '6'
    } else if d == 7 {
        '7'
    } else if d == 8 {
        '8'
    } else {
        '9'
    }
}

/// The decimal digits of `n`.
pub open spec fn decimal(n: nat) -> Seq<char>
    decreases n,
{
    if n < 10 {
        seq![digit_char(n)]
    } else {
        decimal(n / 10).push(digit_char(n % 10))
    }
}

fn digit_str(d: u16) -> (r: &'static str)
    requires
        d < 10,
    ensures
        r@ == seq![digit_char(d as nat)],
{
    if d == 0 {
        proof { reveal_strlit("0"); }
        "0"
    } else if d == 1 {
        proof { reveal_strlit("1"); }
        "1"
    } else if d == 2 {
        proof { reveal_strlit("2"); }
        "2"
    } else if d == 3 {
        proof { reveal_strlit("3"); }
        "3"
    } else if d == 4 {
        proof { reveal_strlit("4"); }
        "4"
    } else if d == 5 {
        proof { reveal_strlit("5"); }
        "5"
    } else if d == 6 {
        proof { reveal_strlit("6"); }
        "6"
    } else if d == 7 {
        proof { reveal_strlit("7"); }
        "7"
    } else if d == 8 {
        proof { reveal_strlit("8"); }
        "8"
    } else {
        proof { reveal_strlit("9"); }
        "9"
    }
}

/// The folder that holds image number `num`.
pub fn num_to_folder(num: u16) -> (r: String)
    ensures
        r@ == decimal(num as nat / 1000 + 100) + "APPLE"@,
{
    let n: u16 = num / 1000 + 100;
    let mut r = String::from_str(digit_str(n / 100));
    r.append(digit_str((n / 10) % 10));
    r.append(digit_str(n % 10));
    r.append("APPLE");
    proof {
        reveal_with_fuel(decimal, 3);
        assert(decimal(n as nat) =~= seq![
            digit_char(n as nat / 100),
            digit_char((n as nat / 10) % 10),
            digit_char(n as nat % 10),
        ]);
    }
    assert(r@ =~= decimal(n as nat) + "APPLE"@);
    r
}

/// The folder that holds an image names a range that holds the image:
/// for every number below 65000, reading back the name `num_to_folder`
/// gives the folder number, whose range contains the number.
pub proof fn lemma_folder_round_trip(num: u16)
    requires
        num < 65000,
    ensures
        folder_number(encode_utf8(trimmed(decimal(num as nat / 1000 + 100) + "APPLE"@)))
            == Some((num / 1000 + 100) as u16),
        ((num / 1000 + 100) - 100) * 1000 <= num < ((num / 1000 + 100) - 100) * 1000 + 1000,
{
    let n: nat = num as nat / 1000 + 100;
    reveal_strlit("APPLE");
    reveal_with_fuel(decimal, 3);
    let x = decimal(n) + "APPLE"@;
    assert(x =~= seq![
        digit_char(n / 100),
        digit_char((n / 10) % 10),
        digit_char(n % 10),
        'A',
        'P',
        'P',
        'L',
        'E',
    ]);
    assert(n / 100 == 1);
    assert(!is_white_space(x[0]));
    assert(!is_white_space(x.last()));
    assert(trim_start(x) == x);
    assert(trim_end(x) == x);
    assert(vstd::utf8::is_ascii_chars(x));
    vstd::utf8::is_ascii_chars_encode_utf8(x);
    let b = encode_utf8(x);
    assert(b.len() == 8);
    assert(b.skip(3) =~= apple());
    let d = b.take(3);
    assert(d[0] == 49);
    assert(d[1] == 48 + (n / 10) % 10);
    assert(d[2] == 48 + n % 10);
    assert(unsigned_digits(d) == d);
    assert(all_digits(d));
    let d1 = d.drop_last().drop_last();
    let d2 = d.drop_last();
    assert(d1.drop_last() =~= Seq::<u8>::empty());
    assert(d1.len() == 1 && d1.last() == d[0]);
    assert(digits_value(d1.drop_last()) == 0);
    assert(digits_value(d1) == 1);
    assert(d2.len() == 2 && d2.last() == d[1] && d2.drop_last() == d1);
    assert(digits_value(d2) == 10 + (n / 10) % 10);
    assert(d.last() == d[2]);
    assert(digits_value(d) == 100 + ((n / 10) % 10) * 10 + n % 10);
    assert(digits_value(d) == n);
}

} // verus!

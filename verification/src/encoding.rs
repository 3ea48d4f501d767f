//! Bytes as text: hexadecimal and base64.
use vstd::prelude::*;

verus! {

/// The lower-case hexadecimal digit for `n`.
pub open spec fn hex_char(n: int) -> char {
    if n < 10 {
        (48 + n) as char
    } else {
        (87 + n) as char
    }
}

/// What a hexadecimal digit of either case stands for.
pub open spec fn hex_value(c: char) -> Option<int> {
    if '0' <= c <= '9' {
        Some(c as int - 48)
    } else if 'a' <= c <= 'f' {
        Some(c as int - 87)
    } else if 'A' <= c <= 'F' {
        Some(c as int - 55)
    } else {
        None
    }
}

/// Two digits for each byte, the high one first.
pub open spec fn hex(bytes: Seq<u8>) -> Seq<char> {
    Seq::new(
        2 * bytes.len(),
        |i: int|
            if i % 2 == 0 {
                hex_char(bytes[i / 2] as int / 16)
            } else {
                hex_char(bytes[i / 2] as int % 16)
            },
    )
}

/// Nothing but hexadecimal digits, two for each byte.
pub open spec fn is_hex(text: Seq<char>) -> bool {
    &&& text.len() % 2 == 0
    &&& forall|i: int| 0 <= i < text.len() ==> hex_value(#[trigger] text[i]) is Some
}

/// The bytes that pairs of digits stand for.
pub open spec fn unhex(text: Seq<char>) -> Seq<u8> {
    Seq::new(
        text.len() / 2,
        |i: int| (16 * hex_value(text[2 * i])->0 + hex_value(text[2 * i + 1])->0) as u8,
    )
}

/// What was written in hexadecimal reads back as it was.
pub proof fn law_hex_reads_back(bytes: Seq<u8>)
    ensures
        is_hex(hex(bytes)),
        unhex(hex(bytes)) == bytes,
{
    assert forall|i: int| 0 <= i < hex(bytes).len() implies hex_value(
        #[trigger] hex(bytes)[i],
    ) is Some by {
        assert(0 <= bytes[i / 2] as int / 16 < 16);
    }
    assert forall|i: int| 0 <= i < bytes.len() implies #[trigger] unhex(hex(bytes))[i]
        == bytes[i] by {
        assert((2 * i) % 2 == 0 && (2 * i) / 2 == i);
        assert((2 * i + 1) % 2 == 1 && (2 * i + 1) / 2 == i);
        let b = bytes[i] as int;
        assert(hex_value(hex_char(b / 16)) == Some(b / 16));
        assert(hex_value(hex_char(b % 16)) == Some(b % 16));
    }
    assert(unhex(hex(bytes)) =~= bytes);
}

fn hex_digit(n: u8) -> (r: char)
    requires
        n < 16,
    ensures
        r == hex_char(n as int),
{
    if n < 10 {
        (48 + n) as char
    } else {
        (87 + n) as char
    }
}

/// Writes bytes in hexadecimal.
pub fn to_hex(bytes: &[u8]) -> (r: String)
    ensures
        r@ == hex(bytes@),
{
    let mut out = String::new();
    let mut i: usize = 0;
    assert(hex(bytes@.take(0)) =~= Seq::<char>::empty());
    while i < bytes.len()
        invariant
            i <= bytes.len(),
            out@ == hex(bytes@.take(i as int)),
        decreases bytes.len() - i,
    {
        let byte: u8 = bytes[i];
        out.push(hex_digit(byte / 16));
        out.push(hex_digit(byte % 16));
        proof {
            let s = bytes@.take(i as int);
            let t = bytes@.take(i + 1);
            assert((2 * i) / 2 == i && (2 * i) % 2 == 0);
            assert((2 * i + 1) / 2 == i && (2 * i + 1) % 2 == 1);
            assert forall|k: int| 0 <= k < hex(s).len() implies hex(t)[k] == hex(s)[k] by {
                assert(s[k / 2] == t[k / 2]);
            }
            assert(hex(t) =~= hex(s).push(hex_char(byte as int / 16)).push(
                hex_char(byte as int % 16),
            ));
        }
        i = i + 1;
    }
    assert(bytes@.take(i as int) =~= bytes@);
    out
}

fn digit_value(c: char) -> (r: Option<u8>)
    ensures
        r is Some <==> hex_value(c) is Some,
        r matches Some(v) ==> v < 16 && hex_value(c) == Some(v as int),
{
    let u: u32 = c as u32;
    if '0' <= c && c <= '9' {
        Some((u - 48) as u8)
    } else if 'a' <= c && c <= 'f' {
        Some((u - 87) as u8)
    } else if 'A' <= c && c <= 'F' {
        Some((u - 55) as u8)
    } else {
        None
    }
}

/// Reads the bytes that the characters from `from` on stand for, if they are hexadecimal digits in pairs.
pub fn from_hex(chars: &Vec<char>, from: usize) -> (r: Option<Vec<u8>>)
    requires
        from <= chars.len(),
    ensures
        r is Some <==> is_hex(chars@.skip(from as int)),
        r matches Some(bytes) ==> bytes@ == unhex(chars@.skip(from as int)),
{
    let ghost text = chars@.skip(from as int);
    if (chars.len() - from) % 2 != 0 {
        return None;
    }
    let mut out: Vec<u8> = Vec::new();
    let mut i: usize = from;
    while i < chars.len()
        invariant
            from <= i <= chars.len(),
            text == chars@.skip(from as int),
            text.len() % 2 == 0,
            (i - from) == 2 * out.len(),
            forall|j: int| 0 <= j < i - from ==> hex_value(#[trigger] text[j]) is Some,
            forall|j: int| 0 <= j < out.len() ==> out@[j] == #[trigger] unhex(text)[j],
        decreases chars.len() - i,
    {
        assert(text[i - from] == chars@[i as int]);
        assert(text[i + 1 - from] == chars@[i + 1]);
        let high: u8 = match digit_value(chars[i]) {
            None => {
                return None;
            },
            Some(v) => v,
        };
        let low: u8 = match digit_value(chars[i + 1]) {
            None => {
                return None;
            },
            Some(v) => v,
        };
        assert(unhex(text)[out@.len() as int] == (16 * high + low) as u8);
        out.push(16 * high + low);
        i = i + 2;
    }
    assert(out@ =~= unhex(text));
    Some(out)
}

/// The base64 character for six bits.
pub open spec fn base64_char(n: int) -> char {
    if n < 26 {
        (65 + n) as char
    } else if n < 52 {
        (71 + n) as char
    } else if n < 62 {
        (n - 4) as char
    } else if n == 62 {
        '+'
    } else {
        '/'
    }
}

/// Four characters for the first three bytes, or for those that there are, filled up with `=`.
pub open spec fn base64_group(bytes: Seq<u8>) -> Seq<char>
    recommends
        bytes.len() > 0,
{
    let first = bytes[0] as int;
    let second = if bytes.len() > 1 {
        bytes[1] as int
    } else {
        0
    };
    let third = if bytes.len() > 2 {
        bytes[2] as int
    } else {
        0
    };
    seq![
        base64_char(first / 4),
        base64_char((first % 4) * 16 + second / 16),
        if bytes.len() > 1 {
            base64_char((second % 16) * 4 + third / 64)
        } else {
            '='
        },
        if bytes.len() > 2 {
            base64_char(third % 64)
        } else {
            '='
        },
    ]
}

/// The base64 form of the bytes, with padding.
pub open spec fn base64(bytes: Seq<u8>) -> Seq<char>
    decreases bytes.len(),
{
    if bytes.len() == 0 {
        Seq::empty()
    } else if bytes.len() <= 3 {
        base64_group(bytes)
    } else {
        base64_group(bytes) + base64(bytes.skip(3))
    }
}

fn base64_digit(n: u8) -> (r: char)
    requires
        n < 64,
    ensures
        r == base64_char(n as int),
{
    if n < 26 {
        (65 + n) as char
    } else if n < 52 {
        (71 + n) as char
    } else if n < 62 {
        (n - 4) as char
    } else if n == 62 {
        '+'
    } else {
        '/'
    }
}

/// Writes bytes in base64.
pub fn base64_encode(bytes: &[u8]) -> (r: String)
    ensures
        r@ == base64(bytes@),
{
    let mut output = String::new();
    let mut i: usize = 0;
    assert(bytes@.skip(0) =~= bytes@);
    while i < bytes.len()
        invariant
            i <= bytes.len(),
            output@ + base64(bytes@.skip(i as int)) =~= base64(bytes@),
        decreases bytes.len() - i,
    {
        let ghost rest = bytes@.skip(i as int);
        let ghost before = output@;
        let left: usize = bytes.len() - i;
        let first: u8 = bytes[i];
        let second: u8 = if left > 1 {
            bytes[i + 1]
        } else {
            0
        };
        let third: u8 = if left > 2 {
            bytes[i + 2]
        } else {
            0
        };
        output.push(base64_digit(first / 4));
        output.push(base64_digit((first % 4) * 16 + second / 16));
        output.push(
            if left > 1 {
                base64_digit((second % 16) * 4 + third / 64)
            } else {
                '='
            },
        );
        output.push(
            if left > 2 {
                base64_digit(third % 64)
            } else {
                '='
            },
        );
        assert(output@ =~= before + base64_group(rest));
        if left <= 3 {
            i = bytes.len();
            assert(bytes@.skip(i as int) =~= Seq::<u8>::empty());
        } else {
            i = i + 3;
            assert(rest.skip(3) =~= bytes@.skip(i as int));
        }
    }
    assert(bytes@.skip(i as int) =~= Seq::<u8>::empty());
    output
}

/// Base64 takes four characters for each three bytes begun.
pub proof fn law_base64_length(bytes: Seq<u8>)
    ensures
        base64(bytes).len() == 4 * ((bytes.len() + 2) / 3),
    decreases bytes.len(),
{
    if bytes.len() > 3 {
        law_base64_length(bytes.skip(3));
    }
}

proof fn lemma_base64_char_is_injective(m: int, n: int)
    requires
        0 <= m < 64,
        0 <= n < 64,
        base64_char(m) == base64_char(n),
    ensures
        m == n,
        base64_char(m) != '=',
{
}

proof fn lemma_base64_group_is_injective(a: Seq<u8>, b: Seq<u8>)
    requires
        0 < a.len(),
        0 < b.len(),
        base64_group(a) == base64_group(b),
    ensures
        a.len() <= 3 || b.len() <= 3 ==> (a.len() >= 3 && b.len() >= 3) || a.len() == b.len(),
        a[0] == b[0],
        a.len() > 1 ==> b.len() > 1 && a[1] == b[1],
        a.len() > 2 ==> b.len() > 2 && a[2] == b[2],
{
    let g = base64_group(a);
    let h = base64_group(b);
    let (a0, b0) = (a[0] as int, b[0] as int);
    let a1 = if a.len() > 1 {
        a[1] as int
    } else {
        0
    };
    let b1 = if b.len() > 1 {
        b[1] as int
    } else {
        0
    };
    let a2 = if a.len() > 2 {
        a[2] as int
    } else {
        0
    };
    let b2 = if b.len() > 2 {
        b[2] as int
    } else {
        0
    };
    assert(g[0] == h[0] && g[1] == h[1] && g[2] == h[2] && g[3] == h[3]);
    lemma_base64_char_is_injective(a0 / 4, b0 / 4);
    lemma_base64_char_is_injective((a0 % 4) * 16 + a1 / 16, (b0 % 4) * 16 + b1 / 16);
    lemma_base64_char_is_injective((a1 % 16) * 4 + a2 / 64, (a1 % 16) * 4 + a2 / 64);
    lemma_base64_char_is_injective((b1 % 16) * 4 + b2 / 64, (b1 % 16) * 4 + b2 / 64);
    lemma_base64_char_is_injective(a2 % 64, a2 % 64);
    lemma_base64_char_is_injective(b2 % 64, b2 % 64);
    if a.len() > 1 && b.len() > 1 {
        lemma_base64_char_is_injective((a1 % 16) * 4 + a2 / 64, (b1 % 16) * 4 + b2 / 64);
    }
    if a.len() > 2 && b.len() > 2 {
        lemma_base64_char_is_injective(a2 % 64, b2 % 64);
    }
}

/// Forms in base64 join where the first stands for whole groups of three bytes.
pub proof fn law_base64_joins(a: Seq<u8>, b: Seq<u8>)
    requires
        a.len() % 3 == 0,
    ensures
        base64(a + b) == base64(a) + base64(b),
    decreases a.len(),
{
    if a.len() == 0 {
        assert(a + b =~= b);
    } else if a.len() == 3 {
        assert(base64_group(a + b) =~= base64_group(a));
        if b.len() == 0 {
            assert(a + b =~= a);
        } else {
            assert((a + b).skip(3) =~= b);
        }
    } else {
        assert((a + b).skip(3) =~= a.skip(3) + b);
        assert(base64_group(a + b) =~= base64_group(a));
        law_base64_joins(a.skip(3), b);
    }
}

/// The six bits that a base64 character stands for.
pub open spec fn base64_value(c: char) -> int {
    let n = c as int;
    if 65 <= n <= 90 {
        n - 65
    } else if 97 <= n <= 122 {
        n - 71
    } else if 48 <= n <= 57 {
        n + 4
    } else if c == '+' {
        62
    } else if c == '/' {
        63
    } else {
        0
    }
}

/// The bytes that the first four characters of a base64 text stand for.
pub open spec fn unbase64_group(text: Seq<char>) -> Seq<u8> {
    let (a, b) = (base64_value(text[0]), base64_value(text[1]));
    let (c, d) = (base64_value(text[2]), base64_value(text[3]));
    let first = (a * 4 + b / 16) as u8;
    let second = ((b % 16) * 16 + c / 4) as u8;
    let third = ((c % 4) * 64 + d) as u8;
    if text[2] == '=' {
        seq![first]
    } else if text[3] == '=' {
        seq![first, second]
    } else {
        seq![first, second, third]
    }
}

/// The bytes that a base64 text stands for.
pub open spec fn unbase64(text: Seq<char>) -> Seq<u8>
    decreases text.len(),
{
    if text.len() < 4 {
        Seq::empty()
    } else {
        unbase64_group(text) + unbase64(text.skip(4))
    }
}

proof fn lemma_base64_char_reads_back(n: int)
    requires
        0 <= n < 64,
    ensures
        base64_value(base64_char(n)) == n,
        base64_char(n) != '=',
{
}

proof fn lemma_base64_group_reads_back(bytes: Seq<u8>)
    requires
        bytes.len() > 0,
    ensures
        unbase64_group(base64_group(bytes)) == if bytes.len() > 3 {
            bytes.take(3)
        } else {
            bytes
        },
{
    let first = bytes[0] as int;
    let second = if bytes.len() > 1 {
        bytes[1] as int
    } else {
        0
    };
    let third = if bytes.len() > 2 {
        bytes[2] as int
    } else {
        0
    };
    lemma_base64_char_reads_back(first / 4);
    lemma_base64_char_reads_back((first % 4) * 16 + second / 16);
    lemma_base64_char_reads_back((second % 16) * 4 + third / 64);
    lemma_base64_char_reads_back(third % 64);
    let read = unbase64_group(base64_group(bytes));
    assert(read[0] == bytes[0]);
    if bytes.len() == 1 {
        assert(read =~= bytes);
    } else if bytes.len() == 2 {
        assert(read[1] == bytes[1]);
        assert(read =~= bytes);
    } else {
        assert(read[1] == bytes[1]);
        assert(read[2] == bytes[2]);
        assert(read =~= bytes.take(3));
        assert(bytes.len() == 3 ==> bytes.take(3) =~= bytes);
    }
}

/// What base64 wrote reads back as the bytes that were written.
pub proof fn law_base64_reads_back(bytes: Seq<u8>)
    ensures
        unbase64(base64(bytes)) == bytes,
    decreases bytes.len(),
{
    if bytes.len() > 0 {
        let text = base64(bytes);
        lemma_base64_group_reads_back(bytes);
        assert(unbase64_group(text) == unbase64_group(base64_group(bytes)));
        if bytes.len() <= 3 {
            assert(unbase64(text.skip(4)) =~= Seq::<u8>::empty());
            assert(bytes + Seq::<u8>::empty() =~= bytes);
        } else {
            law_base64_reads_back(bytes.skip(3));
            assert(text.skip(4) =~= base64(bytes.skip(3)));
            assert(bytes.take(3) + bytes.skip(3) =~= bytes);
        }
    }
}

/// Different bytes have different base64 forms.
pub proof fn law_base64_is_injective(a: Seq<u8>, b: Seq<u8>)
    requires
        base64(a) == base64(b),
    ensures
        a == b,
    decreases a.len(),
{
    law_base64_length(a);
    law_base64_length(b);
    if a.len() == 0 || b.len() == 0 {
        assert(a =~= b);
    } else {
        assert(base64_group(a) =~= base64(a).take(4));
        assert(base64_group(b) =~= base64(b).take(4));
        lemma_base64_group_is_injective(a, b);
        if a.len() > 3 || b.len() > 3 {
            assert(base64(a).skip(4) =~= base64(a.skip(3)));
            assert(base64(b).skip(4) =~= base64(b.skip(3)));
            law_base64_is_injective(a.skip(3), b.skip(3));
            assert(a =~= a.take(3) + a.skip(3));
            assert(b =~= b.take(3) + b.skip(3));
            assert(a.take(3) =~= b.take(3));
        } else {
            assert(a =~= b);
        }
    }
}

/// A byte is written as two digits, the high one first, in lower case.
pub proof fn law_bytes_are_written_as_two_digits(bytes: Seq<u8>, i: int)
    requires
        0 <= i < bytes.len(),
    ensures
        hex(bytes).len() == 2 * bytes.len(),
        hex(bytes)[2 * i] as int == if bytes[i] < 160 {
            48 + bytes[i] as int / 16
        } else {
            87 + bytes[i] as int / 16
        },
        hex(bytes)[2 * i + 1] as int == if bytes[i] % 16 < 10 {
            48 + bytes[i] as int % 16
        } else {
            87 + bytes[i] as int % 16
        },
{
    assert((2 * i) % 2 == 0 && (2 * i) / 2 == i);
    assert((2 * i + 1) % 2 == 1 && (2 * i + 1) / 2 == i);
}

/// Digits are read in either case, and nothing else is: a text is read exactly if it is made of them, in pairs.
pub proof fn law_digits_are_read_in_either_case(text: Seq<char>)
    ensures
        is_hex(text) <==> {
            &&& text.len() % 2 == 0
            &&& forall|i: int|
                0 <= i < text.len() ==> '0' <= (#[trigger] text[i]) <= '9' || 'a' <= text[i] <= 'f'
                    || 'A' <= text[i] <= 'F'
        },
        is_hex(text) ==> unhex(text).len() == text.len() / 2,
        is_hex(text) ==> forall|i: int|
            0 <= i < text.len() / 2 ==> (#[trigger] unhex(text)[i]) / 16 == digit_of(text[2 * i])
                && unhex(text)[i] % 16 == digit_of(text[2 * i + 1]),
{
    if is_hex(text) {
        assert forall|i: int| 0 <= i < text.len() implies '0' <= (#[trigger] text[i]) <= '9' || 'a'
            <= text[i] <= 'f' || 'A' <= text[i] <= 'F' by {
            assert(hex_value(text[i]) is Some);
        }
        assert forall|i: int| 0 <= i < text.len() / 2 implies (#[trigger] unhex(text)[i]) / 16
            == digit_of(text[2 * i]) && unhex(text)[i] % 16 == digit_of(text[2 * i + 1]) by {
            assert(hex_value(text[2 * i]) is Some && hex_value(text[2 * i + 1]) is Some);
        }
    }
    if text.len() % 2 == 0 && forall|i: int|
        0 <= i < text.len() ==> '0' <= (#[trigger] text[i]) <= '9' || 'a' <= text[i] <= 'f' || 'A'
            <= text[i] <= 'F' {
        assert forall|i: int| 0 <= i < text.len() implies hex_value(#[trigger] text[i]) is Some by {
            assert('0' <= text[i] <= '9' || 'a' <= text[i] <= 'f' || 'A' <= text[i] <= 'F');
        }
    }
}

/// The number of a digit among `0` to `9` and then `A` to `F`, in either case.
pub open spec fn digit_of(c: char) -> int {
    if c <= '9' {
        c as int - '0' as int
    } else if c <= 'F' {
        c as int - 'A' as int + 10
    } else {
        c as int - 'a' as int + 10
    }
}

} // verus!

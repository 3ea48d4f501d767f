//! Strings as sequences of characters: order, measuring, cutting, joining.
use vstd::prelude::*;
use vstd::string::*;
use vstd::utf8::*;

verus! {

/// How two strings stand to each other in the order of names.
#[derive(Debug, Clone, Copy, PartialEq, Eq, Structural)]
pub enum Standing {
    Before,
    Same,
    After,
}

/// The number of characters that `a` and `b` share from their start.
pub open spec fn shared_prefix(a: Seq<char>, b: Seq<char>) -> nat
    decreases a.len(),
{
    if a.len() == 0 || b.len() == 0 || a[0] != b[0] {
        0
    } else {
        1 + shared_prefix(a.drop_first(), b.drop_first())
    }
}

/// `a` comes before `b`: `a` is a proper prefix of `b`, or has the smaller
/// character at the first place where the two differ.
pub open spec fn before(a: Seq<char>, b: Seq<char>) -> bool {
    let k = shared_prefix(a, b) as int;
    k < b.len() && (k == a.len() || a[k] < b[k])
}

pub proof fn lemma_shared_prefix(a: Seq<char>, b: Seq<char>)
    ensures
        shared_prefix(a, b) <= a.len(),
        shared_prefix(a, b) <= b.len(),
        forall|i: int| 0 <= i < shared_prefix(a, b) ==> a[i] == b[i],
        shared_prefix(a, b) < a.len() && shared_prefix(a, b) < b.len() ==> a[shared_prefix(
            a,
            b,
        ) as int] != b[shared_prefix(a, b) as int],
    decreases a.len(),
{
    if a.len() == 0 || b.len() == 0 || a[0] != b[0] {
    } else {
        let a1 = a.drop_first();
        let b1 = b.drop_first();
        lemma_shared_prefix(a1, b1);
        assert forall|i: int| 0 <= i < shared_prefix(a, b) implies a[i] == b[i] by {
            if i > 0 {
                assert(a1[i - 1] == b1[i - 1]);
            }
        }
    }
}

/// The characters up to `k` agree and those at `k`, if both are there, differ:
/// then `k` is the shared prefix.
pub proof fn lemma_shared_prefix_is(a: Seq<char>, b: Seq<char>, k: nat)
    requires
        k <= a.len(),
        k <= b.len(),
        forall|i: int| 0 <= i < k ==> a[i] == b[i],
        k < a.len() && k < b.len() ==> a[k as int] != b[k as int],
    ensures
        shared_prefix(a, b) == k,
{
    lemma_shared_prefix(a, b);
    let j = shared_prefix(a, b);
    if j < k {
        assert(a[j as int] == b[j as int]);
    }
    if k < j {
        assert(a[k as int] == b[k as int]);
    }
}

pub proof fn lemma_before_irreflexive(a: Seq<char>)
    ensures
        !before(a, a),
{
    lemma_shared_prefix_is(a, a, a.len());
}

pub proof fn lemma_before_total(a: Seq<char>, b: Seq<char>)
    ensures
        a == b || before(a, b) || before(b, a),
{
    lemma_shared_prefix(a, b);
    let k = shared_prefix(a, b);
    lemma_shared_prefix_is(b, a, k);
    if k == a.len() && k == b.len() {
        assert(a =~= b);
    }
}

pub proof fn lemma_before_transitive(a: Seq<char>, b: Seq<char>, c: Seq<char>)
    requires
        before(a, b),
        before(b, c),
    ensures
        before(a, c),
{
    lemma_shared_prefix(a, b);
    lemma_shared_prefix(b, c);
    let i = shared_prefix(a, b);
    let j = shared_prefix(b, c);
    let k = if i < j { i } else { j };
    assert forall|n: int| 0 <= n < k implies a[n] == c[n] by {
        assert(a[n] == b[n]);
        assert(b[n] == c[n]);
    }
    lemma_shared_prefix_is(a, c, k);
}

/// Nothing comes both before and after one and the same name.
pub proof fn lemma_before_asymmetric(a: Seq<char>, b: Seq<char>)
    requires
        before(a, b),
    ensures
        !before(b, a),
        a != b,
{
    lemma_before_irreflexive(a);
    if before(b, a) {
        lemma_before_transitive(a, b, a);
    }
}

/// The characters of `s`, one per element.
pub fn chars_of(s: &str) -> (r: Vec<char>)
    ensures
        r@ == s@,
{
    let mut out: Vec<char> = Vec::new();
    for c in it: s.chars()
        invariant
            it.seq() == s@,
            out@ == s@.take(it.index() as int),
    {
        out.push(c);
    }
    out
}

/// The number of bytes of the UTF-8 form of `s`.
pub fn byte_len(s: &str) -> (n: usize)
    ensures
        n == encode_utf8(s@).len(),
{
    s.as_bytes().len()
}

/// Whether two strings hold the same characters.
pub fn same(a: &str, b: &str) -> (r: bool)
    ensures
        r == (a@ == b@),
{
    let x = a.as_bytes();
    let y = b.as_bytes();
    proof {
        encode_utf8_decode_utf8(a@);
        encode_utf8_decode_utf8(b@);
    }
    if x.len() != y.len() {
        return false;
    }
    let mut i: usize = 0;
    while i < x.len()
        invariant
            i <= x.len(),
            x.len() == y.len(),
            x@ == encode_utf8(a@),
            y@ == encode_utf8(b@),
            forall|j: int| 0 <= j < i ==> x@[j] == y@[j],
        decreases x.len() - i,
    {
        if x[i] != y[i] {
            return false;
        }
        i = i + 1;
    }
    assert(x@ =~= y@);
    true
}

/// Where `a` stands to `b` in the order of names.
pub fn standing(a: &str, b: &str) -> (r: Standing)
    ensures
        r == Standing::Before <==> before(a@, b@),
        r == Standing::Same <==> a@ == b@,
        r == Standing::After <==> before(b@, a@),
{
    let x = chars_of(a);
    let y = chars_of(b);
    let mut i: usize = 0;
    proof {
        lemma_before_irreflexive(a@);
        if before(a@, b@) {
            lemma_before_asymmetric(a@, b@);
        }
        if before(b@, a@) {
            lemma_before_asymmetric(b@, a@);
        }
    }
    while i < x.len() && i < y.len() && x[i] == y[i]
        invariant
            i <= x.len(),
            i <= y.len(),
            x@ == a@,
            y@ == b@,
            forall|j: int| 0 <= j < i ==> x@[j] == y@[j],
        decreases x.len() - i,
    {
        i = i + 1;
    }
    proof {
        lemma_shared_prefix_is(a@, b@, i as nat);
        lemma_shared_prefix_is(b@, a@, i as nat);
    }
    if i == x.len() {
        if i == y.len() {
            assert(x@ =~= y@);
            Standing::Same
        } else {
            Standing::Before
        }
    } else if i == y.len() {
        Standing::After
    } else if x[i] < y[i] {
        Standing::Before
    } else {
        Standing::After
    }
}

/// `a` followed by `b`.
pub fn glue(a: &str, b: &str) -> (r: String)
    ensures
        r@ == a@ + b@,
{
    let mut out = a.to_owned();
    out.append(b);
    out
}

/// `String::push` of std: the given character is appended to the end of the string.
pub assume_specification[ String::push ](s: &mut String, c: char)
    ensures
        final(s)@ == old(s)@.push(c),
;

/// The text of a list of characters.
pub fn text_of(chars: &Vec<char>) -> (r: String)
    ensures
        r@ == chars@,
{
    let mut out = String::new();
    let mut i: usize = 0;
    while i < chars.len()
        invariant
            i <= chars.len(),
            out@ == chars@.take(i as int),
        decreases chars.len() - i,
    {
        out.push(chars[i]);
        i = i + 1;
    }
    assert(chars@.take(i as int) =~= chars@);
    out
}

/// The bytes that the UTF-8 form of `c` takes.
pub open spec fn width(c: char) -> nat {
    encode_scalar(c as u32).len()
}

/// The longest prefix of `s`, in whole characters, whose UTF-8 form takes at most `max` bytes.
pub open spec fn bounded_prefix(s: Seq<char>, max: int) -> Seq<char>
    decreases s.len(),
{
    if s.len() == 0 || width(s[0]) > max {
        Seq::empty()
    } else {
        seq![s[0]] + bounded_prefix(s.drop_first(), max - width(s[0]))
    }
}

/// `r` is a prefix of `s` of at most `max` bytes, and one more character would not fit.
pub open spec fn is_bounded_prefix(r: Seq<char>, s: Seq<char>, max: int) -> bool {
    &&& r.len() <= s.len()
    &&& r == s.take(r.len() as int)
    &&& encode_utf8(r).len() <= max
    &&& r.len() < s.len() ==> encode_utf8(s.take(r.len() as int + 1)).len() > max
}

proof fn lemma_encoding_of_prefix(s: Seq<char>, n: int)
    requires
        0 < n <= s.len(),
    ensures
        encode_utf8(s.take(n)).len() == width(s[0]) + encode_utf8(s.drop_first().take(n - 1)).len(),
{
    assert(s.take(n).drop_first() =~= s.drop_first().take(n - 1));
}

/// The bounded prefix of a text fits, and is the longest prefix that does.
pub proof fn law_bounded_prefix_is_longest(s: Seq<char>, max: int)
    requires
        0 <= max,
    ensures
        is_bounded_prefix(bounded_prefix(s, max), s, max),
    decreases s.len(),
{
    let r = bounded_prefix(s, max);
    if s.len() == 0 {
        assert(r =~= s.take(0));
    } else if width(s[0]) > max {
        assert(r =~= s.take(0));
        lemma_encoding_of_prefix(s, 1);
    } else {
        let s1 = s.drop_first();
        let r1 = bounded_prefix(s1, max - width(s[0]));
        law_bounded_prefix_is_longest(s1, max - width(s[0]));
        assert(r =~= s.take(r.len() as int));
        assert(r.drop_first() =~= r1);
        if r.len() < s.len() {
            lemma_encoding_of_prefix(s, r.len() as int + 1);
        }
    }
}

proof fn lemma_bounded_prefix_is_unique(r: Seq<char>, s: Seq<char>, max: int)
    requires
        is_bounded_prefix(r, s, max),
    ensures
        r == bounded_prefix(s, max),
    decreases s.len(),
{
    if s.len() > 0 {
        if r.len() > 0 {
            lemma_encoding_of_prefix(s, r.len() as int);
            let s1 = s.drop_first();
            let r1 = r.drop_first();
            assert(r1 =~= s1.take(r1.len() as int));
            if r.len() < s.len() {
                lemma_encoding_of_prefix(s, r.len() as int + 1);
            }
            lemma_bounded_prefix_is_unique(r1, s1, max - width(s[0]));
            assert(r =~= seq![s[0]] + r1);
        } else {
            lemma_encoding_of_prefix(s, 1);
            assert(s.drop_first().take(0) =~= Seq::<char>::empty());
        }
    }
    assert(r =~= bounded_prefix(s, max));
}

proof fn lemma_prefix_ends_on_boundary(s: Seq<char>, n: int)
    requires
        0 <= n <= s.len(),
    ensures
        is_char_boundary(encode_utf8(s), encode_utf8(s.take(n)).len() as int),
        encode_utf8(s.take(n)).len() <= encode_utf8(s).len(),
    decreases n,
{
    encode_utf8_valid_utf8(s);
    if n == 0 {
        assert(s.take(0) =~= Seq::<char>::empty());
    } else {
        let s1 = s.drop_first();
        encode_utf8_first_scalar(s);
        assert(pop_first_scalar(encode_utf8(s)) =~= encode_utf8(s1));
        lemma_encoding_of_prefix(s, n);
        lemma_prefix_ends_on_boundary(s1, n - 1);
    }
}

/// The longest prefix of `s`, in whole characters, of at most `max` bytes.
pub fn cut(s: &str, max: usize) -> (r: String)
    ensures
        r@ == bounded_prefix(s@, max as int),
{
    let ghost bytes = encode_utf8(s@);
    let total: usize = byte_len(s);
    let mut end: usize = if total < max { total } else { max };
    let ghost start = end;
    proof {
        encode_utf8_valid_utf8(s@);
        encode_utf8_decode_utf8(s@);
        is_char_boundary_start_end_of_seq(bytes);
    }
    while end > 0 && !s.is_char_boundary(end)
        invariant
            end <= start,
            bytes == encode_utf8(s@),
            forall|e: int| end < e <= start ==> !is_char_boundary(bytes, e),
        decreases end,
    {
        end = end - 1;
    }
    let head = s.split_at(end).0;
    proof {
        let r = head@;
        encode_utf8_decode_utf8(r);
        decode_utf8_split(bytes, end as int);
        assert(r =~= s@.take(r.len() as int));
        if r.len() < s@.len() {
            lemma_prefix_ends_on_boundary(s@, r.len() as int + 1);
            assert(s@.take(r.len() as int + 1) =~= r.push(s@[r.len() as int]));
            lemma_encoding_grows(r, s@[r.len() as int]);
        }
        lemma_bounded_prefix_is_unique(r, s@, max as int);
    }
    head.to_owned()
}

proof fn lemma_encoding_grows(r: Seq<char>, c: char)
    ensures
        encode_utf8(r.push(c)).len() > encode_utf8(r).len(),
    decreases r.len(),
{
    if r.len() == 0 {
        assert(r.push(c).drop_first() =~= Seq::<char>::empty());
    } else {
        assert(r.push(c).drop_first() =~= r.drop_first().push(c));
        lemma_encoding_grows(r.drop_first(), c);
    }
}

/// The decimal digit for `d`.
pub open spec fn digit(d: nat) -> char {
    (48 + d) as char
}

/// The decimal form of `n`, without leading zeros.
pub open spec fn decimal(n: nat) -> Seq<char>
    decreases n,
{
    if n < 10 {
        seq![digit(n)]
    } else {
        decimal(n / 10).push(digit(n % 10))
    }
}

/// Writes `n` in decimal.
pub fn to_decimal(n: u128) -> (r: String)
    ensures
        r@ == decimal(n as nat),
    decreases n,
{
    let d: u8 = (n % 10) as u8;
    let c: char = (48 + d) as char;
    let mut out = if n < 10 {
        String::new()
    } else {
        to_decimal(n / 10)
    };
    out.push(c);
    out
}

/// A character with the Unicode property White_Space.
pub open spec fn white_space(c: char) -> bool {
    let u = c as u32;
    ||| 0x09 <= u <= 0x0d
    ||| u == 0x20 || u == 0x85 || u == 0xa0 || u == 0x1680
    ||| 0x2000 <= u <= 0x200a
    ||| u == 0x2028 || u == 0x2029 || u == 0x202f || u == 0x205f || u == 0x3000
}

/// Nothing but white space, or nothing at all.
pub open spec fn blank(s: Seq<char>) -> bool {
    forall|i: int| 0 <= i < s.len() ==> white_space(#[trigger] s[i])
}

/// Whether `s` is empty once white space is trimmed from its ends.
pub fn is_blank(s: &str) -> (r: bool)
    ensures
        r == blank(s@),
{
    let chars = chars_of(s);
    let mut i: usize = 0;
    while i < chars.len()
        invariant
            i <= chars.len(),
            chars@ == s@,
            forall|j: int| 0 <= j < i ==> white_space(#[trigger] s@[j]),
        decreases chars.len() - i,
    {
        let u: u32 = chars[i] as u32;
        let white = (0x09 <= u && u <= 0x0d) || u == 0x20 || u == 0x85 || u == 0xa0 || u == 0x1680
            || (0x2000 <= u && u <= 0x200a) || u == 0x2028 || u == 0x2029 || u == 0x202f || u
            == 0x205f || u == 0x3000;
        if !white {
            assert(!white_space(s@[i as int]));
            return false;
        }
        i = i + 1;
    }
    true
}

/// Whether `c` occurs in `s`.
pub fn has_char(s: &str, c: char) -> (r: bool)
    ensures
        r == s@.contains(c),
{
    let chars = chars_of(s);
    let mut i: usize = 0;
    while i < chars.len()
        invariant
            i <= chars.len(),
            chars@ == s@,
            forall|j: int| 0 <= j < i ==> s@[j] != c,
        decreases chars.len() - i,
    {
        if chars[i] == c {
            assert(s@[i as int] == c);
            return true;
        }
        i = i + 1;
    }
    false
}

/// `String::from_utf8` of std: the text whose UTF-8 form the bytes are, if they are one.
#[verifier::external_body]
pub(crate) fn from_utf8(bytes: Vec<u8>) -> (r: Option<String>)
    ensures
        r is Some <==> valid_utf8(bytes@),
        r matches Some(text) ==> text@ == decode_utf8(bytes@),
{
    String::from_utf8(bytes).ok()
}

/// A text comes before another exactly if they agree up to a place where the first ends and the other does not, or has
/// the smaller character.
pub proof fn law_texts_stand_in_the_order_of_their_characters(a: Seq<char>, b: Seq<char>)
    ensures
        before(a, b) <==> exists|k: int|
            0 <= k <= a.len() && k < b.len() && #[trigger] a.take(k) == b.take(k) && (k == a.len()
                || a[k] < b[k]),
{
    lemma_shared_prefix(a, b);
    if before(a, b) {
        let k = shared_prefix(a, b) as int;
        assert(a.take(k) =~= b.take(k));
    }
    if exists|k: int|
        0 <= k <= a.len() && k < b.len() && #[trigger] a.take(k) == b.take(k) && (k == a.len()
            || a[k] < b[k]) {
        let k = choose|k: int|
            0 <= k <= a.len() && k < b.len() && #[trigger] a.take(k) == b.take(k) && (k == a.len()
                || a[k] < b[k]);
        assert forall|i: int| 0 <= i < k implies a[i] == b[i] by {
            assert(a.take(k)[i] == b.take(k)[i]);
        }
        lemma_shared_prefix_is(a, b, k as nat);
    }
}

/// The number that decimal digits stand for.
pub open spec fn number(s: Seq<char>) -> int
    decreases s.len(),
{
    if s.len() == 0 {
        0
    } else {
        10 * number(s.drop_last()) + (s.last() as int - 48)
    }
}

/// The decimal form of a number is made of digits, has no needless zero before it, and stands for the number.
pub proof fn law_decimal_forms_read_back(n: nat)
    ensures
        number(decimal(n)) == n,
        decimal(n).len() > 0,
        forall|i: int| 0 <= i < decimal(n).len() ==> 48 <= #[trigger] decimal(n)[i] as u32 <= 57,
        decimal(n).len() > 1 ==> decimal(n)[0] != '0',
    decreases n,
{
    if n < 10 {
        assert(decimal(n).drop_last() =~= Seq::<char>::empty());
        assert(number(Seq::<char>::empty()) == 0);
    } else {
        law_decimal_forms_read_back(n / 10);
        let rest = decimal(n / 10);
        assert(decimal(n).drop_last() =~= rest);
        if rest.len() == 1 {
            assert(number(rest) == n / 10);
            assert(rest.drop_last() =~= Seq::<char>::empty());
            assert(number(rest.drop_last()) == 0);
        }
    }
}

proof fn lemma_white_space(c: char)
    ensures
        white_space(c) == seq![
            9int, 10, 11, 12, 13, 32, 133, 160, 5760, 8192, 8193, 8194, 8195, 8196, 8197, 8198, 8199,
            8200, 8201, 8202, 8232, 8233, 8239, 8287, 12288,
        ].contains(c as int),
{
    let codes = seq![
        9int, 10, 11, 12, 13, 32, 133, 160, 5760, 8192, 8193, 8194, 8195, 8196, 8197, 8198, 8199,
        8200, 8201, 8202, 8232, 8233, 8239, 8287, 12288,
    ];
    let n = c as int;
    if white_space(c) {
        let at: int = if n <= 13 {
            n - 9
        } else if n == 32 {
            5
        } else if n == 133 {
            6
        } else if n == 160 {
            7
        } else if n == 5760 {
            8
        } else if n <= 8202 {
            n - 8183
        } else if n == 8232 {
            20
        } else if n == 8233 {
            21
        } else if n == 8239 {
            22
        } else if n == 8287 {
            23
        } else {
            24
        };
        assert(codes[at] == n);
    }
    if codes.contains(n) {
        let at = choose|at: int| 0 <= at < codes.len() && codes[at] == n;
        assert(white_space(c));
    }
}

/// A text is blank exactly if each of its characters is one of those that Unicode calls white space.
pub proof fn law_blank_texts_are_white_space(s: Seq<char>)
    ensures
        blank(s) <==> forall|i: int|
            0 <= i < s.len() ==> seq![
                9int, 10, 11, 12, 13, 32, 133, 160, 5760, 8192, 8193, 8194, 8195, 8196, 8197, 8198, 8199,
                8200, 8201, 8202, 8232, 8233, 8239, 8287, 12288,
            ].contains((#[trigger] s[i]) as int),
{
    let codes = seq![
        9int, 10, 11, 12, 13, 32, 133, 160, 5760, 8192, 8193, 8194, 8195, 8196, 8197, 8198, 8199,
        8200, 8201, 8202, 8232, 8233, 8239, 8287, 12288,
    ];
    if blank(s) {
        assert forall|i: int| 0 <= i < s.len() implies codes.contains((#[trigger] s[i]) as int) by {
            assert(white_space(s[i]));
            lemma_white_space(s[i]);
        }
    }
    if forall|i: int| 0 <= i < s.len() ==> codes.contains((#[trigger] s[i]) as int) {
        assert forall|i: int| 0 <= i < s.len() implies white_space(#[trigger] s[i]) by {
            assert(codes.contains(s[i] as int));
            lemma_white_space(s[i]);
        }
    }
}

} // verus!

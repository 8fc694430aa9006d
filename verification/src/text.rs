//! Text helpers: comparison, trimming, number formatting and parsing, ordering.

use vstd::arithmetic::div_mod::lemma_div_denominator;
use vstd::arithmetic::power::{lemma_pow0, lemma_pow_positive, pow};
use vstd::prelude::*;
use vstd::string::*;

verus! {

/// `String::push` of std: appends one character at the end.
pub assume_specification[ String::push ](s: &mut String, c: char)
    ensures
        final(s)@ == old(s)@.push(c),
;

/// The lowercase equivalent of a text, by Unicode's rules: what `str::to_lowercase` of
/// std returns.
pub uninterp spec fn unicode_lowercase(s: Seq<char>) -> Seq<char>;

/// `str::to_lowercase` of std. The result depends on the text alone, and has a name.
/// Of a text of ASCII characters it is the text with the capitals made small; of other
/// texts no more is said.
#[verifier::external_body]
pub(crate) fn to_lowercase(s: &str) -> (r: String)
    ensures
        r@ == unicode_lowercase(s@),
        vstd::utf8::is_ascii_chars(s@) ==> r@ == lowered(s@),
{
    s.to_lowercase()
}

/// A character with the ASCII capitals made small.
pub open spec fn ascii_lower(c: char) -> char {
    if 'A' <= c <= 'Z' {
        ((c as u32) + 32) as char
    } else {
        c
    }
}

/// A text with the ASCII capitals made small.
pub open spec fn lowered(s: Seq<char>) -> Seq<char> {
    s.map_values(|c: char| ascii_lower(c))
}

/// The lowercase of an ASCII text is the text with the capitals made small.
pub open spec fn ascii_rule(s: Seq<char>) -> bool {
    vstd::utf8::is_ascii_chars(s) ==> unicode_lowercase(s) == lowered(s)
}

/// The White_Space property of Unicode.
pub open spec fn white_space(c: char) -> bool {
    let n = c as u32;
    9 <= n <= 13 || n == 0x20 || n == 0x85 || n == 0xA0 || n == 0x1680 || 0x2000 <= n <= 0x200A || n
        == 0x2028 || n == 0x2029 || n == 0x202F || n == 0x205F || n == 0x3000
}

/// A text without the white space at its front.
pub open spec fn trimmed_front(s: Seq<char>) -> Seq<char>
    decreases s.len(),
{
    if s.len() > 0 && white_space(s[0]) {
        trimmed_front(s.drop_first())
    } else {
        s
    }
}

/// A text without the white space at its end.
pub open spec fn trimmed_back(s: Seq<char>) -> Seq<char>
    decreases s.len(),
{
    if s.len() > 0 && white_space(s.last()) {
        trimmed_back(s.drop_last())
    } else {
        s
    }
}

/// A text without the white space at either end.
pub open spec fn trimmed(s: Seq<char>) -> Seq<char> {
    trimmed_back(trimmed_front(s))
}

/// Whether `part` stands somewhere in `s`.
pub open spec fn occurs_in(part: Seq<char>, s: Seq<char>) -> bool {
    exists|i: int|
        0 <= i && i + part.len() <= s.len() && #[trigger] s.subrange(i, i + part.len()) == part
}

/// The character of a digit, with capital letters from ten on if `upper`.
pub open spec fn digit_char(d: int, upper: bool) -> char {
    if d < 10 {
        (48 + d) as char
    } else if upper {
        (55 + d) as char
    } else {
        (87 + d) as char
    }
}

/// The last `width` digits of `n` in the given base.
pub open spec fn fixed_digits(n: nat, base: nat, width: nat, upper: bool) -> Seq<char>
    decreases width,
{
    if width == 0 {
        Seq::empty()
    } else {
        fixed_digits(n / base, base, (width - 1) as nat, upper).push(
            digit_char((n % base) as int, upper),
        )
    }
}

/// How many values `width` hexadecimal digits tell apart.
pub open spec fn hex_room(width: nat) -> nat
    decreases width,
{
    if width == 0 {
        1
    } else {
        16 * hex_room((width - 1) as nat)
    }
}

/// Numbers that fit in a fixed count of hexadecimal digits are told apart by them.
pub proof fn law_fixed_hex_tells_apart(a: nat, b: nat, width: nat, upper: bool)
    requires
        a < hex_room(width),
        b < hex_room(width),
        fixed_digits(a, 16, width, upper) == fixed_digits(b, 16, width, upper),
    ensures
        a == b,
    decreases width,
{
    if width > 0 {
        let w = (width - 1) as nat;
        let x = fixed_digits(a, 16, width, upper);
        let y = fixed_digits(b, 16, width, upper);
        assert(x.last() == digit_char((a % 16) as int, upper));
        assert(y.last() == digit_char((b % 16) as int, upper));
        assert(x.drop_last() =~= fixed_digits(a / 16, 16, w, upper));
        assert(y.drop_last() =~= fixed_digits(b / 16, 16, w, upper));
        law_fixed_hex_tells_apart(a / 16, b / 16, w, upper);
        assert(a % 16 == b % 16);
    }
}

/// `n` in decimal notation.
pub open spec fn decimal(n: nat) -> Seq<char>
    decreases n,
{
    if n < 10 {
        seq![digit_char(n as int, false)]
    } else {
        decimal(n / 10).push(digit_char((n % 10) as int, false))
    }
}

/// Whether every character is a decimal digit.
pub open spec fn all_digits(s: Seq<char>) -> bool {
    forall|i: int| 0 <= i < s.len() ==> '0' <= #[trigger] s[i] <= '9'
}

/// The number that decimal digits spell.
pub open spec fn digits_value(s: Seq<char>) -> nat
    decreases s.len(),
{
    if s.len() == 0 {
        0
    } else {
        digits_value(s.drop_last()) * 10 + (s.last() as u32 - 48) as nat
    }
}

/// The number that a text spells in decimal, a plus sign in front allowed; nothing
/// where it spells none, or one above `max`.
pub open spec fn parsed(s: Seq<char>, max: nat) -> Option<nat> {
    let body = if s.len() > 0 && s[0] == '+' {
        s.drop_first()
    } else {
        s
    };
    if body.len() > 0 && all_digits(body) && digits_value(body) <= max {
        Some(digits_value(body))
    } else {
        None
    }
}

/// Whether `a` stands before `b`, or equals it, in the order of their characters.
pub open spec fn text_le(a: Seq<char>, b: Seq<char>) -> bool
    decreases a.len(),
{
    if a.len() == 0 {
        true
    } else if b.len() == 0 {
        false
    } else if a[0] != b[0] {
        a[0] < b[0]
    } else {
        text_le(a.drop_first(), b.drop_first())
    }
}

/// Whether texts stand in the order of their characters.
pub open spec fn texts_sorted(v: Seq<String>) -> bool {
    forall|i: int, j: int| 0 <= i <= j < v.len() ==> text_le(#[trigger] v[i]@, #[trigger] v[j]@)
}

/// The characters of a text.
pub fn chars_of(s: &str) -> (r: Vec<char>)
    ensures
        r@ == s@,
{
    let mut out: Vec<char> = Vec::new();
    for c in it: s.chars()
        invariant
            out@ == s@.take(it.index() as int),
            it.seq() == s@,
    {
        out.push(c);
        assert(out@ =~= s@.take(it.index() + 1));
    }
    assert(out@ =~= s@);
    out
}

/// The text made of characters `from..to`.
pub fn text_of(v: &Vec<char>, from: usize, to: usize) -> (r: String)
    requires
        from <= to <= v@.len(),
    ensures
        r@ == v@.subrange(from as int, to as int),
{
    let mut out = String::new();
    let mut i: usize = from;
    while i < to
        invariant
            from <= i <= to <= v@.len(),
            out@ == v@.subrange(from as int, i as int),
        decreases to - i,
    {
        out.push(v[i]);
        i += 1;
        assert(out@ =~= v@.subrange(from as int, i as int));
    }
    out
}

/// Whether two texts are the same.
pub fn same(a: &str, b: &str) -> (r: bool)
    ensures
        r == (a@ == b@),
{
    let x = chars_of(a);
    let y = chars_of(b);
    if x.len() != y.len() {
        return false;
    }
    let mut i: usize = 0;
    while i < x.len()
        invariant
            i <= x@.len(),
            x@.len() == y@.len(),
            forall|k: int| 0 <= k < i ==> x@[k] == y@[k],
            x@ == a@,
            y@ == b@,
        decreases x@.len() - i,
    {
        if x[i] != y[i] {
            return false;
        }
        i += 1;
    }
    assert(x@ =~= y@);
    true
}

fn lower_char(c: char) -> (r: char)
    ensures
        r == ascii_lower(c),
{
    if 'A' <= c && c <= 'Z' {
        ((c as u8) + 32) as char
    } else {
        c
    }
}

/// A text with the ASCII capitals made small.
pub fn to_ascii_lower(s: &str) -> (r: String)
    ensures
        r@ == lowered(s@),
{
    let v = chars_of(s);
    let mut out = String::new();
    let mut i: usize = 0;
    while i < v.len()
        invariant
            i <= v@.len(),
            out@ == lowered(v@.take(i as int)),
        decreases v@.len() - i,
    {
        out.push(lower_char(v[i]));
        i += 1;
        assert(out@ =~= lowered(v@.take(i as int)));
    }
    assert(v@.take(i as int) =~= v@);
    out
}

/// Whether a character has the White_Space property of Unicode.
pub fn is_white_space(c: char) -> (r: bool)
    ensures
        r == white_space(c),
{
    let n: u32 = c as u32;
    (9 <= n && n <= 13) || n == 0x20 || n == 0x85 || n == 0xA0 || n == 0x1680 || (0x2000 <= n && n
        <= 0x200A) || n == 0x2028 || n == 0x2029 || n == 0x202F || n == 0x205F || n == 0x3000
}

/// A text without the white space at either end.
pub fn trim(s: &str) -> (r: String)
    ensures
        r@ == trimmed(s@),
{
    let v = chars_of(s);
    let mut i: usize = 0;
    assert(v@.skip(0) =~= v@);
    while i < v.len() && is_white_space(v[i])
        invariant
            i <= v@.len(),
            trimmed_front(v@) == trimmed_front(v@.skip(i as int)),
        decreases v@.len() - i,
    {
        assert(v@.skip(i as int).drop_first() =~= v@.skip(i + 1));
        i += 1;
    }
    let ghost front = v@.skip(i as int);
    assert(trimmed_front(v@) == front);
    let mut j: usize = v.len();
    assert(v@.subrange(i as int, j as int) =~= front);
    while j > i && is_white_space(v[j - 1])
        invariant
            i <= j <= v@.len(),
            trimmed_back(front) == trimmed_back(v@.subrange(i as int, j as int)),
        decreases j - i,
    {
        assert(v@.subrange(i as int, j as int).drop_last() =~= v@.subrange(i as int, j - 1));
        j -= 1;
    }
    text_of(&v, i, j)
}

/// Whether `part` stands somewhere in `s`.
pub fn contains(s: &str, part: &str) -> (r: bool)
    ensures
        r == occurs_in(part@, s@),
{
    let v = chars_of(s);
    let p = chars_of(part);
    if p.len() == 0 {
        assert(s@.subrange(0, 0int + part@.len()) =~= part@);
        return true;
    }
    if p.len() > v.len() {
        return false;
    }
    let places: usize = v.len() - p.len() + 1;
    let mut i: usize = 0;
    while i < places
        invariant
            v@ == s@,
            p@ == part@,
            0 < p@.len() <= v@.len(),
            places == v@.len() - p@.len() + 1,
            v@.len() == v.len(),
            i <= places,
            forall|k: int| 0 <= k < i ==> #[trigger] v@.subrange(k, k + p@.len()) != p@,
        decreases places - i,
    {
        let mut j: usize = 0;
        while j < p.len() && v[i + j] == p[j]
            invariant
                i + p@.len() <= v@.len(),
                v@.len() == v.len(),
                j <= p@.len(),
                forall|k: int| 0 <= k < j ==> v@[i + k] == p@[k],
            decreases p@.len() - j,
        {
            j += 1;
        }
        if j == p.len() {
            assert(v@.subrange(i as int, i + p@.len()) =~= p@);
            return true;
        }
        assert(v@.subrange(i as int, i + p@.len())[j as int] == v@[i + j]);
        i += 1;
    }
    false
}

fn digit(d: u64, upper: bool) -> (r: char)
    requires
        d < 36,
    ensures
        r == digit_char(d as int, upper),
{
    if d < 10 {
        (48 + d as u8) as char
    } else if upper {
        (55 + d as u8) as char
    } else {
        (87 + d as u8) as char
    }
}

/// Appends the last `width` digits of `n` in the given base.
pub fn push_fixed(out: &mut String, n: u64, base: u64, width: usize, upper: bool)
    requires
        2 <= base <= 36,
    ensures
        final(out)@ == old(out)@ + fixed_digits(n as nat, base as nat, width as nat, upper),
    decreases width,
{
    if width > 0 {
        push_fixed(out, n / base, base, width - 1, upper);
        out.push(digit(n % base, upper));
    }
    assert(out@ =~= old(out)@ + fixed_digits(n as nat, base as nat, width as nat, upper));
}

/// Appends `n` in decimal notation.
pub fn push_decimal(out: &mut String, n: u64)
    ensures
        final(out)@ == old(out)@ + decimal(n as nat),
    decreases n,
{
    if n >= 10 {
        push_decimal(out, n / 10);
    }
    out.push(digit(n % 10, false));
    assert(out@ =~= old(out)@ + decimal(n as nat));
}

/// `n` in decimal notation.
pub fn to_decimal(n: u64) -> (r: String)
    ensures
        r@ == decimal(n as nat),
{
    let mut out = String::new();
    push_decimal(&mut out, n);
    assert(out@ =~= decimal(n as nat));
    out
}

proof fn lemma_digits_prefix(s: Seq<char>, i: int)
    requires
        all_digits(s),
        0 <= i <= s.len(),
    ensures
        digits_value(s.take(i)) <= digits_value(s),
    decreases s.len() - i,
{
    if i < s.len() {
        lemma_digits_prefix(s, i + 1);
        assert(s.take(i + 1).drop_last() =~= s.take(i));
        assert(s.take(i + 1).last() == s[i]);
    } else {
        assert(s.take(i) =~= s);
    }
}

/// Reads a decimal number of at most `max`, a plus sign in front allowed.
pub fn parse_decimal(s: &str, max: u32) -> (r: Option<u32>)
    requires
        max <= 0xFFFF,
    ensures
        match r {
            Some(n) => parsed(s@, max as nat) == Some(n as nat),
            None => parsed(s@, max as nat) is None,
        },
{
    let v = chars_of(s);
    let start: usize = if v.len() > 0 && v[0] == '+' {
        1
    } else {
        0
    };
    let ghost body = v@.skip(start as int);
    assert(start == 1 ==> body =~= v@.drop_first());
    assert(start == 0 ==> body =~= v@);
    if start == v.len() {
        return None;
    }
    let mut value: u32 = 0;
    let mut i: usize = start;
    assert(body.take(0) =~= Seq::<char>::empty());
    while i < v.len()
        invariant
            start <= i <= v@.len(),
            start <= 1,
            max <= 0xFFFF,
            body == v@.skip(start as int),
            parsed(v@, max as nat) == (if body.len() > 0 && all_digits(body) && digits_value(body)
                <= max {
                Some(digits_value(body))
            } else {
                None
            }),
            v@ == s@,
            all_digits(body.take(i - start)),
            value == digits_value(body.take(i - start)),
            value <= max,
        decreases v@.len() - i,
    {
        let c: char = v[i];
        assert(body[i - start] == c);
        if !('0' <= c && c <= '9') {
            return None;
        }
        value = value * 10 + (c as u32 - 48);
        i += 1;
        proof {
            let now = body.take(i - start);
            assert(now.drop_last() =~= body.take(i - start - 1));
            assert(now.last() == c);
            assert forall|k: int| 0 <= k < now.len() implies '0' <= #[trigger] now[k] <= '9' by {
                if k < now.len() - 1 {
                    assert(now[k] == body.take(i - start - 1)[k]);
                }
            }
        }
        if value > max {
            proof {
                if all_digits(body) {
                    lemma_digits_prefix(body, i - start);
                }
            }
            return None;
        }
    }
    assert(body.take(i - start) =~= body);
    Some(value)
}

fn le(a: &str, b: &str) -> (r: bool)
    ensures
        r == text_le(a@, b@),
{
    let x = chars_of(a);
    let y = chars_of(b);
    let mut i: usize = 0;
    assert(x@.skip(0) =~= x@ && y@.skip(0) =~= y@);
    while i < x.len()
        invariant
            x@ == a@,
            y@ == b@,
            i <= x@.len(),
            i <= y@.len(),
            text_le(a@, b@) == text_le(x@.skip(i as int), y@.skip(i as int)),
        decreases x@.len() - i,
    {
        if i >= y.len() {
            return false;
        }
        if x[i] != y[i] {
            return x[i] < y[i];
        }
        assert(x@.skip(i as int).drop_first() =~= x@.skip(i + 1));
        assert(y@.skip(i as int).drop_first() =~= y@.skip(i + 1));
        i += 1;
    }
    true
}

proof fn lemma_le_transitive(a: Seq<char>, b: Seq<char>, c: Seq<char>)
    requires
        text_le(a, b),
        text_le(b, c),
    ensures
        text_le(a, c),
    decreases a.len(),
{
    if a.len() > 0 && a[0] == b[0] && b[0] == c[0] {
        lemma_le_transitive(a.drop_first(), b.drop_first(), c.drop_first());
    }
}

proof fn lemma_le_total(a: Seq<char>, b: Seq<char>)
    ensures
        text_le(a, b) || text_le(b, a),
    decreases a.len(),
{
    if a.len() > 0 && b.len() > 0 && a[0] == b[0] {
        lemma_le_total(a.drop_first(), b.drop_first());
    }
}

proof fn lemma_insert_multiset(v: Seq<String>, k: int, s: String)
    requires
        0 <= k <= v.len(),
    ensures
        v.insert(k, s).to_multiset() == v.to_multiset().insert(s),
{
    broadcast use vstd::seq_lib::group_to_multiset_ensures;

    let w = v.insert(k, s);
    assert(w.remove(k) =~= v);
    assert(w[k] == s);
    assert(w.contains(s));
    assert(w.to_multiset().remove(s) == v.to_multiset());
    assert(w.to_multiset() =~= w.to_multiset().remove(s).insert(s));
}

/// Puts texts in the order of their characters.
pub fn sort_texts(names: Vec<String>) -> (r: Vec<String>)
    ensures
        texts_sorted(r@),
        r@.to_multiset() == names@.to_multiset(),
{
    let mut out: Vec<String> = Vec::new();
    let mut i: usize = 0;
    proof {
        assert(names@.take(0) =~= Seq::<String>::empty());
    }
    while i < names.len()
        invariant
            i <= names@.len(),
            texts_sorted(out@),
            out@.to_multiset() == names@.take(i as int).to_multiset(),
        decreases names@.len() - i,
    {
        let s: String = names[i].clone();
        let mut k: usize = 0;
        while k < out.len() && le(out[k].as_str(), s.as_str())
            invariant
                k <= out@.len(),
                texts_sorted(out@),
                forall|m: int| 0 <= m < k ==> text_le(#[trigger] out@[m]@, s@),
            decreases out@.len() - k,
        {
            k += 1;
        }
        let ghost before = out@;
        out.insert(k, s);
        proof {
            if k < before.len() {
                lemma_le_total(before[k as int]@, s@);
            }
            assert forall|a: int, b: int| 0 <= a <= b < out@.len() implies text_le(
                #[trigger] out@[a]@,
                #[trigger] out@[b]@,
            ) by {
                if a == k && b == k {
                    lemma_le_total(s@, s@);
                } else if a == k {
                    assert(out@[b] == before[b - 1]);
                    lemma_le_transitive(s@, before[k as int]@, before[b - 1]@);
                } else if b == k {
                    assert(out@[a] == before[a]);
                } else {
                    let a0 = if a < k { a } else { a - 1 };
                    let b0 = if b < k { b } else { b - 1 };
                    assert(out@[a] == before[a0] && out@[b] == before[b0]);
                }
            }
            lemma_insert_multiset(before, k as int, s);
            broadcast use vstd::seq_lib::group_to_multiset_ensures;

            assert(names@.take(i + 1) =~= names@.take(i as int).push(names@[i as int]));
        }
        i += 1;
    }
    assert(names@.take(i as int) =~= names@);
    out
}

proof fn lemma_decimal(n: nat)
    ensures
        decimal(n).len() > 0,
        all_digits(decimal(n)),
        digits_value(decimal(n)) == n,
    decreases n,
{
    let s = decimal(n);
    if n < 10 {
        assert(s.drop_last() =~= Seq::<char>::empty());
        assert(digits_value(s.drop_last()) == 0);
    } else {
        lemma_decimal(n / 10);
        let front = decimal(n / 10);
        assert(s.drop_last() =~= front);
        assert forall|i: int| 0 <= i < s.len() implies '0' <= #[trigger] s[i] <= '9' by {
            if i < front.len() {
                assert(s[i] == front[i]);
            }
        }
    }
}

/// A number that was written in decimal is read back as it was, also where white space
/// is trimmed off first.
pub proof fn law_decimal_roundtrip(n: nat, max: nat)
    requires
        n <= max,
    ensures
        parsed(decimal(n), max) == Some(n),
        trimmed(decimal(n)) == decimal(n),
{
    lemma_decimal(n);
    let s = decimal(n);
    assert('0' <= s[0] <= '9');
    assert('0' <= s[s.len() - 1] <= '9');
}

/// Lower case keeps every character in its place, and moves the ASCII capitals, and only
/// them, by 32.
pub proof fn law_lowered(s: Seq<char>, i: int)
    requires
        0 <= i < s.len(),
    ensures
        lowered(s).len() == s.len(),
        65 <= s[i] as u32 <= 90 ==> lowered(s)[i] as u32 == s[i] as u32 + 32,
        !(65 <= s[i] as u32 <= 90) ==> lowered(s)[i] == s[i],
{
}

/// The white space among the ASCII characters is the blank and the five control characters
/// from the tabulator on; letters, digits and CJK ideographs are none.
pub proof fn law_white_space(c: char)
    ensures
        (c as u32) < 0x80 ==> white_space(c) == (c == ' ' || c == '\t' || c == '\n' || c == '\r' || c
            as u32 == 11 || c as u32 == 12),
        0x80 <= c as u32 ==> white_space(c) == (c as u32 == 0x85 || c as u32 == 0xA0 || c as u32
            == 0x1680 || (0x2000 <= c as u32 && c as u32 <= 0x200A) || c as u32 == 0x2028 || c as u32
            == 0x2029 || c as u32 == 0x202F || c as u32 == 0x205F || c as u32 == 0x3000),
{
}

proof fn lemma_trimmed_front(s: Seq<char>) -> (a: int)
    ensures
        0 <= a <= s.len(),
        trimmed_front(s) == s.skip(a),
        forall|i: int| 0 <= i < a ==> white_space(#[trigger] s[i]),
        a < s.len() ==> !white_space(s[a]),
    decreases s.len(),
{
    if s.len() > 0 && white_space(s[0]) {
        let t = s.drop_first();
        let b = lemma_trimmed_front(t);
        assert(t.skip(b) =~= s.skip(b + 1));
        assert forall|i: int| 0 <= i < b + 1 implies white_space(#[trigger] s[i]) by {
            if i > 0 {
                assert(t[i - 1] == s[i]);
            }
        }
        b + 1
    } else {
        assert(s.skip(0) =~= s);
        0
    }
}

proof fn lemma_trimmed_back(s: Seq<char>) -> (b: int)
    ensures
        0 <= b <= s.len(),
        trimmed_back(s) == s.take(b),
        forall|i: int| b <= i < s.len() ==> white_space(#[trigger] s[i]),
        b > 0 ==> !white_space(s[b - 1]),
    decreases s.len(),
{
    if s.len() > 0 && white_space(s.last()) {
        let t = s.drop_last();
        let b = lemma_trimmed_back(t);
        assert(t.take(b) =~= s.take(b));
        assert forall|i: int| b <= i < s.len() implies white_space(#[trigger] s[i]) by {
            if i < t.len() {
                assert(t[i] == s[i]);
            }
        }
        b
    } else {
        assert(s.take(s.len() as int) =~= s);
        s.len() as int
    }
}

/// Trimming cuts white space off both ends, all of it, and nothing else.
pub proof fn law_trimmed(s: Seq<char>)
    ensures
        exists|a: int, b: int|
            {
                &&& 0 <= a <= b <= s.len()
                &&& trimmed(s) == #[trigger] s.subrange(a, b)
                &&& forall|i: int| 0 <= i < a ==> white_space(#[trigger] s[i])
                &&& forall|i: int| b <= i < s.len() ==> white_space(#[trigger] s[i])
            },
        trimmed(s).len() > 0 ==> !white_space(trimmed(s)[0]) && !white_space(trimmed(s).last()),
{
    let a = lemma_trimmed_front(s);
    let t = s.skip(a);
    let n = lemma_trimmed_back(t);
    let b = a + n;
    assert(t.take(n) =~= s.subrange(a, b));
    assert forall|i: int| b <= i < s.len() implies white_space(#[trigger] s[i]) by {
        assert(t[i - a] == s[i]);
    }
    assert(trimmed(s) == s.subrange(a, b));
    if n > 0 {
        assert(t.take(n)[0] == s[a]);
        assert(t.take(n).last() == t[n - 1]);
    }
}

/// A text holds a part exactly where it can be cut into something, the part, and
/// something.
pub proof fn law_occurrence(part: Seq<char>, s: Seq<char>, front: Seq<char>, back: Seq<char>)
    ensures
        s == front + part + back ==> occurs_in(part, s),
        occurs_in(part, s) ==> exists|a: Seq<char>, b: Seq<char>| s == #[trigger] (a + part + b),
{
    if s == front + part + back {
        let i = front.len() as int;
        assert(s.subrange(i, i + part.len()) =~= part);
    }
    if occurs_in(part, s) {
        let i = choose|i: int|
            0 <= i && i + part.len() <= s.len() && #[trigger] s.subrange(i, i + part.len()) == part;
        let a = s.take(i);
        let b = s.skip(i + part.len());
        assert(s =~= a + s.subrange(i, i + part.len()) + b);
        assert(s == a + part + b);
    }
}

/// Digits are the characters from '0' to '9', then the letters from 'a' or 'A' on.
pub proof fn law_digit_characters(d: int)
    requires
        0 <= d < 16,
    ensures
        digit_char(d, true) == seq![
            '0', '1', '2', '3', '4', '5', '6', '7', '8', '9', 'A', 'B', 'C', 'D', 'E', 'F',
        ][d],
        digit_char(d, false) == seq![
            '0', '1', '2', '3', '4', '5', '6', '7', '8', '9', 'a', 'b', 'c', 'd', 'e', 'f',
        ][d],
{
}

/// In a notation of fixed width the digit at place `i` counts the power of the base that
/// belongs to its place.
pub proof fn law_fixed_places(n: nat, base: nat, width: nat, upper: bool, i: int)
    requires
        base >= 2,
        0 <= i < width,
    ensures
        fixed_digits(n, base, width, upper).len() == width,
        fixed_digits(n, base, width, upper)[i] == digit_char(
            (n as int / pow(base as int, (width - 1 - i) as nat)) % base as int,
            upper,
        ),
    decreases width,
{
    let w = (width - 1) as nat;
    lemma_fixed_len(n / base, base, w, upper);
    if i == w {
        lemma_pow0(base as int);
        assert(n as int / 1 == n as int);
    } else {
        law_fixed_places(n / base, base, w, upper, i);
        let k = (w - 1 - i) as nat;
        lemma_pow_positive(base as int, k);
        lemma_div_denominator(n as int, base as int, pow(base as int, k));
        reveal(pow);
        assert(pow(base as int, k + 1) == base as int * pow(base as int, k));
    }
}

proof fn lemma_fixed_len(n: nat, base: nat, width: nat, upper: bool)
    requires
        base > 0,
    ensures
        fixed_digits(n, base, width, upper).len() == width,
    decreases width,
{
    if width > 0 {
        lemma_fixed_len(n / base, base, (width - 1) as nat, upper);
    }
}

/// A number in decimal notation has digits only, and no zero in front of others.
pub proof fn law_decimal_form(n: nat)
    ensures
        decimal(n).len() >= 1,
        forall|i: int| 0 <= i < decimal(n).len() ==> '0' <= #[trigger] decimal(n)[i] <= '9',
        decimal(n).len() > 1 ==> decimal(n)[0] != '0',
        n < 10 <==> decimal(n).len() == 1,
    decreases n,
{
    if n >= 10 {
        law_decimal_form(n / 10);
        let front = decimal(n / 10);
        assert(decimal(n)[0] == front[0]);
        assert forall|i: int| 0 <= i < decimal(n).len() implies '0' <= #[trigger] decimal(n)[i]
            <= '9' by {
            if i < front.len() {
                assert(decimal(n)[i] == front[i]);
            }
        }
        if front.len() == 1 {
            assert(n / 10 < 10 && n / 10 >= 1);
        }
    }
}

/// Each digit that is put behind others counts one, and makes the others count ten times
/// as much.
pub proof fn law_digits_count(s: Seq<char>, c: char)
    requires
        '0' <= c <= '9',
    ensures
        digits_value(Seq::<char>::empty()) == 0,
        digits_value(s.push(c)) == 10 * digits_value(s) + (c as u32 - '0' as u32),
{
    assert(s.push(c).drop_last() =~= s);
}

/// A text is read as a number exactly where it is one digit or more, a plus sign in front
/// not counted, and the number is within the bound.
pub proof fn law_number_texts(s: Seq<char>, max: nat)
    ensures
        s.len() > 0 && all_digits(s) && digits_value(s) <= max ==> parsed(s, max) == Some(
            digits_value(s),
        ) && parsed(seq!['+'] + s, max) == Some(digits_value(s)),
        s.len() > 0 && all_digits(s) && digits_value(s) > max ==> parsed(s, max) is None,
        s.len() == 0 ==> parsed(s, max) is None,
        (exists|i: int| 0 <= i < s.len() && !('0' <= #[trigger] s[i] <= '9') && !(i == 0 && s[i]
            == '+')) ==> parsed(s, max) is None,
        parsed(s, max) matches Some(n) ==> n <= max,
{
    if s.len() > 0 && all_digits(s) && digits_value(s) <= max {
        assert('0' <= s[0] <= '9');
        assert((seq!['+'] + s).drop_first() =~= s);
    }
    if exists|i: int|
        0 <= i < s.len() && !('0' <= #[trigger] s[i] <= '9') && !(i == 0 && s[i] == '+') {
        let i = choose|i: int|
            0 <= i < s.len() && !('0' <= #[trigger] s[i] <= '9') && !(i == 0 && s[i] == '+');
        if s[0] == '+' {
            assert(s.drop_first()[i - 1] == s[i]);
        }
    }
    if s.len() > 0 && all_digits(s) {
        assert('0' <= s[0] <= '9');
    }
}

/// Texts are ordered by the first character in which they differ; where one is the
/// beginning of the other, the shorter stands first.
pub proof fn law_text_order(a: Seq<char>, b: Seq<char>, k: int)
    requires
        0 <= k <= a.len(),
        k <= b.len(),
        forall|i: int| 0 <= i < k ==> a[i] == b[i],
    ensures
        k < a.len() && k < b.len() && a[k] != b[k] ==> text_le(a, b) == (a[k] < b[k]),
        k == a.len() ==> text_le(a, b),
        k == b.len() && k < a.len() ==> !text_le(a, b),
    decreases a.len(),
{
    if k > 0 {
        assert(a[0] == b[0]);
        law_text_order(a.drop_first(), b.drop_first(), k - 1);
    }
}

/// Texts stand in order where none stands before an earlier one.
pub proof fn law_sorted_texts(v: Seq<String>, i: int, j: int)
    requires
        texts_sorted(v),
        0 <= i < j < v.len(),
    ensures
        text_le(v[i]@, v[j]@),
{
}

} // verus!

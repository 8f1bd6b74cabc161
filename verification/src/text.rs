use vstd::prelude::*;

verus! {

/// The decimal digit character for a value below ten.
pub open spec fn digit_char(d: nat) -> char
    recommends d < 10,
{
    (('0' as u32) + d) as char
}

/// Decimal digits of a natural number, most significant first, without leading zeros.
pub open spec fn nat_digits(n: nat) -> Seq<char>
    decreases n,
{
    if n < 10 {
        seq![digit_char(n)]
    } else {
        nat_digits(n / 10).push(digit_char(n % 10))
    }
}

/// Decimal text of an integer, with a leading '-' for negative values.
pub open spec fn int_text(i: int) -> Seq<char> {
    if i < 0 {
        seq!['-'] + nat_digits((-i) as nat)
    } else {
        nat_digits(i as nat)
    }
}

/// Appends the characters of `s` to `out`.
pub fn push_str(out: &mut Vec<char>, s: &str)
    ensures
        final(out)@ == old(out)@ + s@,
{
    let ghost start = out@;
    for c in it: s.chars()
        invariant
            out@ == start + it.seq().take(it.index() as int),
    {
        out.push(c);
        proof {
            assert(it.seq().take(it.index() + 1) == it.seq().take(it.index() as int).push(c));
        }
    }
}


/// Appends the decimal digits of `n`.
pub fn push_nat(out: &mut Vec<char>, n: u64)
    ensures
        final(out)@ == old(out)@ + nat_digits(n as nat),
    decreases n,
{
    if n >= 10 {
        push_nat(out, n / 10);
    }
    let d = (n % 10) as u32;
    let c = char_of_digit(d);
    out.push(c);
    proof {
        if n >= 10 {
            assert(nat_digits(n as nat) == nat_digits((n / 10) as nat).push(digit_char((n % 10) as nat)));
        }
    }
}

/// The character of a decimal digit.
pub fn char_of_digit(d: u32) -> (c: char)
    requires
        d < 10,
    ensures
        c == digit_char(d as nat),
{
    match d {
        0 => '0',
        1 => '1',
        2 => '2',
        3 => '3',
        4 => '4',
        5 => '5',
        6 => '6',
        7 => '7',
        8 => '8',
        _ => '9',
    }
}

/// Appends the decimal text of `i`.
pub fn push_int(out: &mut Vec<char>, i: i64)
    ensures
        final(out)@ == old(out)@ + int_text(i as int),
{
    if i < 0 {
        out.push('-');
        let magnitude: u64 = ((-(i + 1)) as u64) + 1;
        push_nat(out, magnitude);
        proof {
            assert(old(out)@.push('-') + nat_digits(magnitude as nat) == old(out)@ + (seq!['-'] + nat_digits(magnitude as nat)));
        }
    } else {
        push_nat(out, i as u64);
    }
}

/// Whether a character is an ASCII decimal digit.
pub open spec fn is_digit(c: char) -> bool {
    '0' <= c && c <= '9'
}

/// Whether every character of `s` is an ASCII decimal digit.
pub open spec fn all_digits(s: Seq<char>) -> bool {
    forall|k: int| 0 <= k < s.len() ==> is_digit(#[trigger] s[k])
}

/// The natural number written by a sequence of decimal digits.
pub open spec fn digits_value(s: Seq<char>) -> nat
    decreases s.len(),
{
    if s.len() == 0 {
        0
    } else {
        digits_value(s.drop_last()) * 10 + ((s.last() as int) - ('0' as int)) as nat
    }
}

/// The integer written by `digits`, negated when `negative`.
pub open spec fn signed_value(digits: Seq<char>, negative: bool) -> int {
    if negative {
        -(digits_value(digits) as int)
    } else {
        digits_value(digits) as int
    }
}

/// Whether an integer fits in `i64`.
pub open spec fn fits_i64(v: int) -> bool {
    i64::MIN <= v <= i64::MAX
}

proof fn lemma_saturate_step(v: nat, d: nat)
    requires
        d < 10,
    ensures
        ({
            let cap: nat = 0x8000_0000_0000_0001;
            let sat = if v < cap { v } else { cap };
            let next = v * 10 + d;
            (if sat * 10 + d < cap { sat * 10 + d } else { cap }) == (if next < cap { next } else { cap })
        }),
{
    let cap: nat = 0x8000_0000_0000_0001;
    if v >= cap {
        assert(v * 10 + d >= cap) by (nonlinear_arith)
            requires v >= cap;
    }
}

/// Converts decimal digits with an optional sign to an `i64`; `None` when the value does not fit.
pub fn parse_i64(digits: &Vec<char>, negative: bool) -> (r: Option<i64>)
    requires
        all_digits(digits@),
    ensures
        match r {
            Some(v) => fits_i64(signed_value(digits@, negative)) && v == signed_value(digits@, negative),
            None => !fits_i64(signed_value(digits@, negative)),
        },
{
    let cap: u64 = 0x8000_0000_0000_0001;
    let mut acc: u64 = 0;
    let mut k: usize = 0;
    while k < digits.len()
        invariant
            k <= digits@.len(),
            all_digits(digits@),
            acc == (if digits_value(digits@.take(k as int)) < cap { digits_value(digits@.take(k as int)) } else { cap as nat }),
        decreases digits@.len() - k,
    {
        let c = digits[k];
        assert(is_digit(digits@[k as int]));
        let d = (c as u32 - '0' as u32) as u64;
        proof {
            let t = digits@.take(k + 1);
            assert(t.drop_last() == digits@.take(k as int));
            assert(t.last() == c);
            lemma_saturate_step(digits_value(digits@.take(k as int)), d as nat);
        }
        let next: u128 = (acc as u128) * 10 + (d as u128);
        acc = if next < (cap as u128) { next as u64 } else { cap };
        k = k + 1;
    }
    assert(digits@.take(digits@.len() as int) == digits@);
    if negative {
        if acc <= 0x8000_0000_0000_0000 {
            if acc == 0x8000_0000_0000_0000 {
                Some(i64::MIN)
            } else {
                Some(-(acc as i64))
            }
        } else {
            None
        }
    } else {
        if acc <= 0x7fff_ffff_ffff_ffff {
            Some(acc as i64)
        } else {
            None
        }
    }
}

/// Lexicographic order on character sequences: the first differing character decides,
/// and a proper prefix comes first.
pub open spec fn seq_less(a: Seq<char>, b: Seq<char>) -> bool
    decreases a.len(),
{
    if a.len() == 0 {
        b.len() > 0
    } else if b.len() == 0 {
        false
    } else if a[0] != b[0] {
        a[0] < b[0]
    } else {
        seq_less(a.drop_first(), b.drop_first())
    }
}

/// Whether two character vectors hold the same characters.
pub fn chars_equal(a: &Vec<char>, b: &Vec<char>) -> (r: bool)
    ensures
        r == (a@ == b@),
{
    if a.len() != b.len() {
        return false;
    }
    let mut k: usize = 0;
    while k < a.len()
        invariant
            a@.len() == b@.len(),
            k <= a@.len(),
            forall|j: int| 0 <= j < k ==> a@[j] == b@[j],
        decreases a@.len() - k,
    {
        if a[k] != b[k] {
            return false;
        }
        k = k + 1;
    }
    assert(a@ =~= b@);
    true
}

/// Whether `a` comes strictly before `b` in lexicographic order.
pub fn chars_less(a: &Vec<char>, b: &Vec<char>) -> (r: bool)
    ensures
        r == seq_less(a@, b@),
{
    let mut k: usize = 0;
    assert(a@.skip(0) == a@ && b@.skip(0) == b@);
    while k < a.len() && k < b.len()
        invariant
            k <= a@.len(),
            k <= b@.len(),
            seq_less(a@, b@) == seq_less(a@.skip(k as int), b@.skip(k as int)),
        decreases a@.len() - k,
    {
        if a[k] != b[k] {
            proof {
                assert(a@.skip(k as int)[0] == a@[k as int]);
                assert(b@.skip(k as int)[0] == b@[k as int]);
            }
            return a[k] < b[k];
        }
        proof {
            assert(a@.skip(k as int).drop_first() == a@.skip(k + 1));
            assert(b@.skip(k as int).drop_first() == b@.skip(k + 1));
        }
        k = k + 1;
    }
    k < b.len()
}

/// A copy of a character vector.
pub fn copy_chars(a: &Vec<char>) -> (r: Vec<char>)
    ensures
        r@ == a@,
{
    let mut r: Vec<char> = Vec::new();
    let mut k: usize = 0;
    while k < a.len()
        invariant
            k <= a@.len(),
            r@ == a@.take(k as int),
        decreases a@.len() - k,
    {
        r.push(a[k]);
        proof {
            assert(a@.take(k + 1) == a@.take(k as int).push(a@[k as int]));
        }
        k = k + 1;
    }
    assert(a@.take(a@.len() as int) == a@);
    r
}

/// Appends the characters of `s` to `out`.
pub fn push_chars(out: &mut Vec<char>, s: &Vec<char>)
    ensures
        final(out)@ == old(out)@ + s@,
{
    let ghost start = out@;
    let mut k: usize = 0;
    while k < s.len()
        invariant
            k <= s@.len(),
            out@ == start + s@.take(k as int),
        decreases s@.len() - k,
    {
        out.push(s[k]);
        proof {
            assert(s@.take(k + 1) == s@.take(k as int).push(s@[k as int]));
        }
        k = k + 1;
    }
    assert(s@.take(s@.len() as int) == s@);
}

/// The characters of a string slice.
pub fn chars_of(s: &str) -> (r: Vec<char>)
    ensures
        r@ == s@,
{
    let mut r: Vec<char> = Vec::new();
    push_str(&mut r, s);
    r
}

/// A `String` holding the given characters, collected by std's `String: FromIterator<char>`;
/// the claim is that the string's characters are those of `chars`, in order.
#[verifier::external_body]
pub(crate) fn string_of(chars: &Vec<char>) -> (s: String)
    ensures
        s@ == chars@,
{
    chars.iter().collect()
}

/// The prefix of an error message: `Línea N: `.
pub open spec fn line_prefix(line: nat) -> Seq<char> {
    "Línea "@ + nat_digits(line) + ": "@
}

/// Starts an error message at a line.
pub fn at_line(line: usize) -> (r: Vec<char>)
    ensures
        r@ == line_prefix(line as nat),
{
    let mut r: Vec<char> = Vec::new();
    push_str(&mut r, "Línea ");
    push_nat(&mut r, line as u64);
    push_str(&mut r, ": ");
    r
}

/// Whether a message names a line: it starts with `Línea N: ` for some line `N`.
pub open spec fn names_line(m: Seq<char>) -> bool {
    exists|n: nat| #[trigger] line_prefix(n).is_prefix_of(m)
}

/// A message that starts with the prefix of a line names that line.
pub proof fn lemma_names_line(line: nat, text: Seq<char>)
    ensures
        names_line(line_prefix(line) + text),
{
    assert(line_prefix(line).is_prefix_of(line_prefix(line) + text));
}

/// An error message `Línea N: <text>`.
pub fn line_message(line: usize, text: &Vec<char>) -> (r: String)
    ensures
        r@ == line_prefix(line as nat) + text@,
        names_line(r@),
{
    let mut m = at_line(line);
    push_chars(&mut m, text);
    proof {
        lemma_names_line(line as nat, text@);
    }
    string_of(&m)
}

/// An error message `Línea N: <text>`.
pub fn line_error(line: usize, text: &str) -> (r: String)
    ensures
        r@ == line_prefix(line as nat) + text@,
        names_line(r@),
{
    let mut m = at_line(line);
    push_str(&mut m, text);
    proof {
        lemma_names_line(line as nat, text@);
    }
    string_of(&m)
}

/// Unicode's `White_Space` characters, as `char::is_whitespace` documents them.
pub open spec fn is_white_space(c: char) -> bool {
    let n = c as u32;
    (0x9 <= n <= 0xd) || n == 0x20 || n == 0x85 || n == 0xa0 || n == 0x1680 || (0x2000 <= n <= 0x200a)
        || n == 0x2028 || n == 0x2029 || n == 0x202f || n == 0x205f || n == 0x3000
}

/// Whether a character is white space (see `is_white_space`).
pub fn white_space(c: char) -> (r: bool)
    ensures
        r == is_white_space(c),
{
    let n = c as u32;
    (0x9 <= n && n <= 0xd) || n == 0x20 || n == 0x85 || n == 0xa0 || n == 0x1680 || (0x2000 <= n && n <= 0x200a)
        || n == 0x2028 || n == 0x2029 || n == 0x202f || n == 0x205f || n == 0x3000
}

/// The character at a position.
pub fn char_at(v: &Vec<char>, i: usize) -> (c: char)
    requires
        i < v@.len(),
    ensures
        c == v@[i as int],
{
    v[i]
}

/// The decimal digits of a natural number are digits, at least one, and read back as the number.
pub proof fn lemma_nat_digits_value(n: nat)
    ensures
        nat_digits(n).len() > 0,
        all_digits(nat_digits(n)),
        digits_value(nat_digits(n)) == n,
    decreases n,
{
    if n >= 10 {
        lemma_nat_digits_value(n / 10);
        let s = nat_digits(n);
        let head = nat_digits(n / 10);
        assert(s.drop_last() =~= head);
        assert forall|k: int| 0 <= k < s.len() implies is_digit(#[trigger] s[k]) by {
            if k < s.len() - 1 {
                assert(s[k] == head[k]);
            }
        }
        let d = n % 10;
        assert(s.last() == digit_char(d));
        assert((digit_char(d) as int) - ('0' as int) == d);
        assert(digits_value(s) == digits_value(head) * 10 + d);
        assert((n / 10) * 10 + n % 10 == n);
    } else {
        let s = nat_digits(n);
        assert(s.drop_last() =~= Seq::<char>::empty());
        assert((digit_char(n) as int) - ('0' as int) == n);
        assert(digits_value(s) == digits_value(s.drop_last()) * 10 + ((s.last() as int) - ('0' as int)) as nat);
    }
}

/// The printed form of an integer: an optional `-`, then at least one digit; read back with
/// its sign, the digits give the integer.
pub proof fn lemma_int_text_reads_back(i: int)
    ensures
        ({
            let t = int_text(i);
            let negative = t.len() > 0 && t[0] == '-';
            let digits = if negative { t.drop_first() } else { t };
            &&& digits.len() > 0
            &&& all_digits(digits)
            &&& signed_value(digits, negative) == i
            &&& negative == (i < 0)
        }),
{
    if i < 0 {
        lemma_nat_digits_value((-i) as nat);
        assert((seq!['-'] + nat_digits((-i) as nat)).drop_first() =~= nat_digits((-i) as nat));
    } else {
        lemma_nat_digits_value(i as nat);
        assert(is_digit(nat_digits(i as nat)[0]));
    }
}

/// Lexicographic order: where two strings first differ, at a position inside both, the
/// smaller character decides, whatever the lengths.
pub proof fn lemma_first_difference_decides(a: Seq<char>, b: Seq<char>, k: int)
    requires
        0 <= k < a.len(),
        k < b.len(),
        a[k] != b[k],
        forall|j: int| 0 <= j < k ==> a[j] == b[j],
    ensures
        seq_less(a, b) == (a[k] < b[k]),
        seq_less(b, a) == (b[k] < a[k]),
    decreases k,
{
    if k > 0 {
        assert(a[0] == b[0]);
        lemma_first_difference_decides(a.drop_first(), b.drop_first(), k - 1);
    }
}

/// A proper prefix comes first, and a string never comes before itself.
pub proof fn lemma_prefix_comes_first(a: Seq<char>, b: Seq<char>)
    requires
        a.len() <= b.len(),
        forall|j: int| 0 <= j < a.len() ==> a[j] == b[j],
    ensures
        seq_less(a, b) == (a.len() < b.len()),
        !seq_less(b, a),
    decreases a.len(),
{
    if a.len() > 0 {
        assert(a[0] == b[0]);
        lemma_prefix_comes_first(a.drop_first(), b.drop_first());
    }
}

/// Lexicographic order on text is a strict total order: of `a < b`, `a == b` and `b < a`
/// exactly one holds.
pub proof fn lemma_seq_less_trichotomy(a: Seq<char>, b: Seq<char>)
    ensures
        seq_less(a, b) || a == b || seq_less(b, a),
        !(seq_less(a, b) && seq_less(b, a)),
        seq_less(a, b) ==> a != b,
    decreases a.len(),
{
    if a.len() > 0 && b.len() > 0 && a[0] == b[0] {
        lemma_seq_less_trichotomy(a.drop_first(), b.drop_first());
        if a.drop_first() == b.drop_first() {
            assert(a =~= seq![a[0]] + a.drop_first());
            assert(b =~= seq![b[0]] + b.drop_first());
        }
    }
}

}

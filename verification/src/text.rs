//! Character-level text building blocks: decimal numerals, zero padding and
//! the slug form of a title.
use vstd::prelude::*;

verus! {

/// The ASCII digit for a value below ten.
pub open spec fn digit_char(d: nat) -> char {
    if d == 0 {
        '0'
    } else if d == 1 {
        '1'
    } else if d == 2 {
        '2'
    } else if d == 3 {
        '3'
    } else if d == 4 {
        '4'
    } else if d == 5 {
        '5'
    } else if d == 6 {
        '6'
    } else if d == 7 {
        '7'
    } else if d == 8 {
        '8'
    } else {
        '9'
    }
}

/// The decimal numeral of `n`, most significant digit first, without
/// leading zeros.
pub open spec fn decimal(n: nat) -> Seq<char>
    decreases n,
{
    if n < 10 {
        seq![digit_char(n)]
    } else {
        decimal(n / 10).push(digit_char(n % 10))
    }
}

/// `s` padded on the left with `'0'` to a width of at least two.
pub open spec fn zero_pad2(s: Seq<char>) -> Seq<char> {
    if s.len() >= 2 {
        s
    } else {
        Seq::new((2 - s.len()) as nat, |_i: int| '0') + s
    }
}

/// ASCII lower-casing of one character; other characters are unchanged.
pub open spec fn ascii_lower(c: char) -> char {
    if 'A' <= c && c <= 'Z' {
        ((c as u32) + 32) as char
    } else {
        c
    }
}

/// One character of a slug: a space becomes `'-'`, the rest is
/// lower-cased as ASCII.
pub open spec fn slug_char(c: char) -> char {
    if c == ' ' {
        '-'
    } else {
        ascii_lower(c)
    }
}

/// The slug form of a title: the title lower-cased as ASCII, with every
/// space replaced by `'-'`.
pub open spec fn slug_segment(title: Seq<char>) -> Seq<char> {
    title.map_values(|c: char| slug_char(c))
}

/// Calls `String::push`, which appends one character; the contract claims
/// that afterwards the string holds its old characters followed by `c`.
#[verifier::external_body]
pub(crate) fn push_char(s: &mut String, c: char)
    ensures
        final(s)@ == old(s)@.push(c),
{
    s.push(c);
}

fn exec_digit_char(d: usize) -> (c: char)
    requires
        d < 10,
    ensures
        c == digit_char(d as nat),
{
    if d == 0 {
        '0'
    } else if d == 1 {
        '1'
    } else if d == 2 {
        '2'
    } else if d == 3 {
        '3'
    } else if d == 4 {
        '4'
    } else if d == 5 {
        '5'
    } else if d == 6 {
        '6'
    } else if d == 7 {
        '7'
    } else if d == 8 {
        '8'
    } else {
        '9'
    }
}

/// Appends the decimal numeral of `n`.
pub(crate) fn push_decimal(out: &mut String, n: usize)
    ensures
        final(out)@ == old(out)@ + decimal(n as nat),
    decreases n,
{
    if n >= 10 {
        push_decimal(out, n / 10);
    }
    push_char(out, exec_digit_char(n % 10));
    proof {
        assert(decimal(n as nat) =~= (if n >= 10 { decimal((n / 10) as nat) } else { Seq::empty() }).push(digit_char((n % 10) as nat)));
    }
}


proof fn lemma_decimal_len(n: nat)
    ensures
        decimal(n).len() >= 1,
        n >= 10 ==> decimal(n).len() >= 2,
        n < 10 ==> decimal(n).len() == 1,
    decreases n,
{
    if n >= 10 {
        lemma_decimal_len(n / 10);
    }
}

/// Appends the decimal numeral of `n`, padded with `'0'` to two digits.
pub(crate) fn push_zero_padded2(out: &mut String, n: usize)
    ensures
        final(out)@ == old(out)@ + zero_pad2(decimal(n as nat)),
{
    proof {
        lemma_decimal_len(n as nat);
    }
    let ghost start = out@;
    if n < 10 {
        push_char(out, '0');
    }
    push_decimal(out, n);
    proof {
        if n < 10 {
            assert(Seq::new(1nat, |_i: int| '0') =~= seq!['0']);
            assert(out@ =~= start + zero_pad2(decimal(n as nat)));
        }
    }
}

fn exec_slug_char(c: char) -> (r: char)
    ensures
        r == slug_char(c),
{
    if c == ' ' {
        '-'
    } else if 'A' <= c && c <= 'Z' {
        ((c as u8) + 32u8) as char
    } else {
        c
    }
}

/// Appends the slug form of `title`.
pub(crate) fn push_slug_segment(out: &mut String, title: &str)
    ensures
        final(out)@ == old(out)@ + slug_segment(title@),
{
    let ghost start = out@;
    let len = title.unicode_len();
    let mut i: usize = 0;
    while i < len
        invariant
            len == title@.len(),
            i <= len,
            out@ =~= start + slug_segment(title@.subrange(0, i as int)),
        decreases len - i,
    {
        let c = title.get_char(i);
        push_char(out, exec_slug_char(c));
        assert(title@.subrange(0, i + 1) =~= title@.subrange(0, i as int).push(c));
        i = i + 1;
    }
    assert(title@.subrange(0, len as int) =~= title@);
}


/// `c` is an ASCII decimal digit.
pub open spec fn is_digit(c: char) -> bool {
    '0' <= c && c <= '9'
}

/// The value of a string of decimal digits, read in base ten.
pub open spec fn numeral_value(s: Seq<char>) -> int
    decreases s.len(),
{
    if s.len() == 0 {
        0
    } else {
        numeral_value(s.drop_last()) * 10 + (s.last() as int - '0' as int)
    }
}

/// `s` is how `{:0>2}` writes `v`: decimal digits whose value is `v`, at
/// least two of them, and no leading zero beyond the second position.
pub open spec fn is_padded_numeral(s: Seq<char>, v: int) -> bool {
    &&& forall|i: int| 0 <= i < s.len() ==> #[trigger] is_digit(s[i])
    &&& numeral_value(s) == v
    &&& s.len() >= 2
    &&& s.len() > 2 ==> s[0] != '0'
}

proof fn lemma_digit_char(d: nat)
    requires
        d < 10,
    ensures
        digit_char(d) as int == '0' as int + d,
        is_digit(digit_char(d)),
{
}

/// The decimal numeral of `n` is the base-ten representation of `n`:
/// digits only, read back it is `n`, and it has no leading zero.
pub proof fn lemma_decimal_is_base_ten(n: nat)
    ensures
        forall|i: int| 0 <= i < decimal(n).len() ==> #[trigger] is_digit(decimal(n)[i]),
        numeral_value(decimal(n)) == n,
        decimal(n).len() >= 1,
        decimal(n).len() > 1 ==> decimal(n)[0] != '0',
    decreases n,
{
    lemma_decimal_len(n);
    if n < 10 {
        lemma_digit_char(n);
        let s = decimal(n);
        assert(s.drop_last() =~= Seq::<char>::empty());
        assert(s.last() == digit_char(n));
        assert(numeral_value(s) == numeral_value(s.drop_last()) * 10 + (s.last() as int - '0' as int));
    } else {
        let q = n / 10;
        let r = n % 10;
        lemma_decimal_is_base_ten(q);
        lemma_digit_char(r);
        lemma_decimal_len(q);
        let s = decimal(n);
        assert(s == decimal(q).push(digit_char(r)));
        assert(s.drop_last() =~= decimal(q));
        assert(s[0] == decimal(q)[0]);
        assert(n == q * 10 + r);
        assert(s.last() == digit_char(r));
        assert(numeral_value(s) == numeral_value(decimal(q)) * 10 + (digit_char(r) as int - '0' as int));
        assert forall|i: int| 0 <= i < s.len() implies #[trigger] is_digit(s[i]) by {
            if i < s.len() - 1 {
                assert(s[i] == decimal(q)[i]);
            }
        }
    }
}

proof fn lemma_leading_zero_value(s: Seq<char>)
    ensures
        numeral_value(seq!['0'] + s) == numeral_value(s),
    decreases s.len(),
{
    if s.len() > 0 {
        let t = seq!['0'] + s;
        assert(t.drop_last() =~= seq!['0'] + s.drop_last());
        assert(t.last() == s.last());
        lemma_leading_zero_value(s.drop_last());
        assert(numeral_value(t) == numeral_value(t.drop_last()) * 10 + (t.last() as int - '0' as int));
    } else {
        let t = seq!['0'] + s;
        assert(t.drop_last() =~= Seq::<char>::empty());
        assert(t.last() == '0');
        assert(numeral_value(t) == numeral_value(t.drop_last()) * 10 + (t.last() as int - '0' as int));
    }
}

/// Zero-padding the decimal numeral of `n` to two places writes `n` as
/// `{:0>2}` does.
pub proof fn lemma_zero_pad2_numeral(n: nat)
    ensures
        is_padded_numeral(zero_pad2(decimal(n)), n as int),
{
    lemma_decimal_is_base_ten(n);
    let d = decimal(n);
    let s = zero_pad2(d);
    if d.len() < 2 {
        assert(Seq::new((2 - d.len()) as nat, |_i: int| '0') =~= seq!['0']);
        assert(s == seq!['0'] + d);
        lemma_leading_zero_value(d);
        assert forall|i: int| 0 <= i < s.len() implies #[trigger] is_digit(s[i]) by {
            if i > 0 {
                assert(s[i] == d[i - 1]);
            }
        }
    }
}

/// The slug form of a title keeps its length; a space becomes `'-'`, an
/// ASCII capital becomes the letter 32 code points later (its lower case),
/// and every other character stays. So a slug holds no space and no ASCII
/// capital.
pub proof fn lemma_slug_segment_chars(t: Seq<char>)
    ensures
        slug_segment(t).len() == t.len(),
        forall|i: int|
            0 <= i < t.len() ==> {
                let c = t[i];
                let r = #[trigger] slug_segment(t)[i];
                &&& c == ' ' ==> r == '-'
                &&& 'A' <= c <= 'Z' ==> r as u32 == c as u32 + 32
                &&& (c != ' ' && !('A' <= c <= 'Z')) ==> r == c
                &&& r != ' '
                &&& !('A' <= r <= 'Z')
            },
{
    assert forall|i: int| 0 <= i < t.len() implies {
        let c = t[i];
        let r = #[trigger] slug_segment(t)[i];
        &&& c == ' ' ==> r == '-'
        &&& 'A' <= c <= 'Z' ==> r as u32 == c as u32 + 32
        &&& (c != ' ' && !('A' <= c <= 'Z')) ==> r == c
        &&& r != ' '
        &&& !('A' <= r <= 'Z')
    } by {
        let c = t[i];
        let r = slug_segment(t)[i];
        assert(r == slug_char(c));
        if 'A' <= c <= 'Z' {
            assert((c as u32) >= 65 && (c as u32) <= 90);
            assert(((c as u32) + 32) as char as u32 == (c as u32) + 32);
        }
    }
}

} // verus!

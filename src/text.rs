use vstd::prelude::*;

verus! {

/// Relies on `String::push`: the character is appended at the end of the string.
#[verifier::external_body]
pub(crate) fn push_char(s: &mut String, c: char)
    ensures
        final(s)@ == old(s)@.push(c),
{
    s.push(c)
}

/// The characters of `text`, in order.
pub fn chars_of(text: &str) -> (r: Vec<char>)
    ensures
        r@ == text@,
{
    let mut v: Vec<char> = Vec::new();
    for c in it: text.chars()
        invariant
            v@ == it.seq().take(it.index() as int),
    {
        v.push(c);
    }
    v
}

} // verus!

verus! {

/// Whether `w` equals the word `k`.
pub fn is_word(w: &String, k: &str) -> (b: bool)
    ensures
        b == (w@ == k@),
{
    let k = k.to_owned();
    *w == k
}

} // verus!

verus! {

/// The items joined, with `sep` between each two.
pub open spec fn join(items: Seq<Seq<char>>, sep: Seq<char>) -> Seq<char>
    decreases items.len(),
{
    if items.len() == 0 {
        seq![]
    } else if items.len() == 1 {
        items[0]
    } else {
        join(items.drop_last(), sep) + sep + items.last()
    }
}

/// The items joined, with `sep` between each two.
pub fn join_strings(items: &Vec<String>, sep: &str) -> (r: String)
    ensures
        r@ == join(items@.map_values(|s: String| s@), sep@),
{
    let ghost v = items@.map_values(|s: String| s@);
    let mut r = String::new();
    for k in 0..items.len()
        invariant
            v == items@.map_values(|s: String| s@),
            r@ == join(v.take(k as int), sep@),
    {
        if k > 0 {
            r.append(sep);
        }
        r.append(items[k].as_str());
        assert(v.take(k + 1).drop_last() =~= v.take(k as int));
        assert(k == 0 ==> v.take(k + 1) =~= seq![v[0]]);
    }
    assert(v.take(items.len() as int) =~= v);
    r
}

/// The decimal digits of a natural number.
pub open spec fn nat_text(n: nat) -> Seq<char>
    decreases n,
{
    if n < 10 {
        seq![(('0' as u32) + n) as char]
    } else {
        nat_text(n / 10).push((('0' as u32) + (n % 10)) as char)
    }
}

/// The decimal text of an integer, with `-` when it is negative.
pub open spec fn int_text(n: int) -> Seq<char> {
    if n < 0 {
        seq!['-'] + nat_text((-n) as nat)
    } else {
        nat_text(n as nat)
    }
}

fn digit_char(d: u64) -> (c: char)
    requires
        d < 10,
    ensures
        c == (('0' as u32) + d) as char,
{
    ((('0' as u32) + (d as u32)) as u8) as char
}

/// The decimal text of `n`.
pub fn integer_text(n: i64) -> (r: String)
    ensures
        r@ == int_text(n as int),
{
    let mut mag: u64 = if n < 0 {
        if n == i64::MIN {
            0x8000_0000_0000_0000
        } else {
            (-n) as u64
        }
    } else {
        n as u64
    };
    let ghost m0 = mag as nat;
    let mut digits: Vec<char> = Vec::new();
    while mag >= 10
        invariant
            nat_text(m0) == nat_text(mag as nat) + digits@.reverse(),
        decreases mag,
    {
        let c = digit_char(mag % 10);
        proof {
            assert(nat_text(mag as nat) == nat_text((mag / 10) as nat).push(c));
            assert(digits@.push(c).reverse() =~= seq![c] + digits@.reverse());
            assert(nat_text((mag / 10) as nat).push(c) + digits@.reverse() =~= nat_text(
                (mag / 10) as nat,
            ) + digits@.push(c).reverse());
        }
        digits.push(c);
        mag = mag / 10;
    }
    let mut r = String::new();
    if n < 0 {
        push_char(&mut r, '-');
    }
    push_char(&mut r, digit_char(mag));
    let ghost start = r@;
    let mut k = digits.len();
    while k > 0
        invariant
            k <= digits.len(),
            r@ == start + digits@.reverse().take((digits.len() - k) as int),
        decreases k,
    {
        k -= 1;
        push_char(&mut r, digits[k]);
        assert(digits@.reverse().take((digits.len() - k) as int) =~= digits@.reverse().take(
            (digits.len() - k - 1) as int,
        ).push(digits@[k as int]));
    }
    assert(digits@.reverse().take(digits.len() as int) =~= digits@.reverse());
    proof {
        assert(nat_text(mag as nat) == seq![(('0' as u32) + mag) as char]);
        if n < 0 {
            assert(r@ =~= seq!['-'] + nat_text(m0));
        } else {
            assert(r@ =~= nat_text(m0));
        }
    }
    r
}

} // verus!

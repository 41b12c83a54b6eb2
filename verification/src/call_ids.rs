//! Identifiers of tool calls: `call_` and a running number in hexadecimal.

use vstd::prelude::*;

verus! {

/// A hexadecimal digit.
pub open spec fn hex_digit(d: int) -> char {
    if d < 10 {
        (('0' as int) + d) as char
    } else {
        (('a' as int) + (d - 10)) as char
    }
}

/// The last `k` hexadecimal digits of a number.
pub open spec fn hex_digits(n: nat, k: nat) -> Seq<char>
    decreases k,
{
    if k == 0 {
        Seq::empty()
    } else {
        hex_digits(n / 16, (k - 1) as nat).push(hex_digit((n % 16) as int))
    }
}

/// The identifier with the number `n`.
pub open spec fn call_id(n: u64) -> Seq<char> {
    "call_"@ + hex_digits(n as nat, 16)
}

/// The number that comes `k` steps after `n`; after the last number the count starts
/// again at 0.
pub open spec fn number_after(n: u64, k: int) -> u64 {
    ((n + k) % 0x1_0000_0000_0000_0000) as u64
}

/// Steps add up.
pub proof fn lemma_number_after(n: u64, j: int, k: int)
    requires
        0 <= j,
        0 <= k,
    ensures
        number_after(number_after(n, j), k) == number_after(n, j + k),
        number_after(n, 0) == n,
{
}

/// The value of a hexadecimal digit is read back from it.
proof fn lemma_hex_digit_injective(d: int, e: int)
    requires
        0 <= d < 16,
        0 <= e < 16,
        hex_digit(d) == hex_digit(e),
    ensures
        d == e,
{
}

/// How many numbers have `k` hexadecimal digits.
spec fn hex_range(k: nat) -> nat
    decreases k,
{
    if k == 0 {
        1
    } else {
        16 * hex_range((k - 1) as nat)
    }
}

/// A number with at most `k` digits is known by its last `k` digits.
proof fn lemma_hex_digits_injective(n: nat, m: nat, k: nat)
    requires
        n < hex_range(k),
        m < hex_range(k),
        hex_digits(n, k) == hex_digits(m, k),
    ensures
        n == m,
    decreases k,
{
    if k > 0 {
        let j = (k - 1) as nat;
        let a = hex_digits(n / 16, j);
        let b = hex_digits(m / 16, j);
        assert(a.push(hex_digit((n % 16) as int)).drop_last() =~= a);
        assert(b.push(hex_digit((m % 16) as int)).drop_last() =~= b);
        assert(a.push(hex_digit((n % 16) as int)).last() == hex_digit((n % 16) as int));
        assert(b.push(hex_digit((m % 16) as int)).last() == hex_digit((m % 16) as int));
        lemma_hex_digit_injective((n % 16) as int, (m % 16) as int);
        lemma_hex_digits_injective(n / 16, m / 16, j);
    }
}

/// Different numbers give different identifiers.
pub proof fn law_call_ids_are_distinct(n: u64, m: u64)
    requires
        call_id(n) == call_id(m),
    ensures
        n == m,
{
    let p = "call_"@;
    assert((p + hex_digits(n as nat, 16)).skip(p.len() as int) =~= hex_digits(n as nat, 16));
    assert((p + hex_digits(m as nat, 16)).skip(p.len() as int) =~= hex_digits(m as nat, 16));
    assert(hex_range(16) == 0x1_0000_0000_0000_0000) by {
        reveal_with_fuel(hex_range, 17);
    }
    lemma_hex_digits_injective(n as nat, m as nat, 16);
}

/// The source of the identifiers.
#[derive(Debug)]
pub struct CallIds {
    /// The number of the next identifier.
    pub next: u64,
}

impl CallIds {
    /// A source that starts at 1.
    pub fn new() -> (r: Self)
        ensures
            r.next == 1,
    {
        CallIds { next: 1 }
    }

    /// The next identifier.
    pub fn next_call_id(&mut self) -> (r: String)
        ensures
            r@ == call_id(old(self).next),
            final(self).next == number_after(old(self).next, 1),
    {
        let n: u64 = self.next;
        self.next = n.wrapping_add(1);
        let mut low: Vec<char> = Vec::new();
        let mut rest: u64 = n;
        let mut k: usize = 0;
        while k < 16
            invariant
                k <= 16,
                low@.len() == k,
                hex_digits(n as nat, 16) == hex_digits(rest as nat, (16 - k) as nat)
                    + low@.reverse(),
            decreases 16 - k,
        {
            let d: u64 = rest % 16;
            let c = digit(d);
            let ghost before = low@;
            low.push(c);
            proof {
                assert(low@.reverse() =~= seq![c] + before.reverse());
                let head = hex_digits(rest as nat / 16, (15 - k) as nat);
                assert(head.push(c) + before.reverse() =~= head + low@.reverse());
            }
            rest = rest / 16;
            k += 1;
        }
        let mut out = "call_".to_owned();
        let mut i: usize = 16;
        assert(low@.reverse().take(0) =~= Seq::<char>::empty());
        while i > 0
            invariant
                i <= 16,
                low@.len() == 16,
                out@ == "call_"@ + low@.reverse().take(16 - i),
            decreases i,
        {
            i -= 1;
            out.push(low[i]);
            assert(low@.reverse().take(16 - i) =~= low@.reverse().take(15 - i).push(low@[i as int]));
        }
        assert(low@.reverse().take(16) =~= hex_digits(n as nat, 16));
        out
    }
}

/// A hexadecimal digit.
fn digit(d: u64) -> (r: char)
    requires
        d < 16,
    ensures
        r == hex_digit(d as int),
{
    if d < 10 {
        (0x30u8 + d as u8) as char
    } else {
        (0x61u8 + (d as u8 - 10)) as char
    }
}

/// The value of a hexadecimal digit.
pub open spec fn digit_value(c: char) -> int {
    if '0' <= c <= '9' {
        c as int - '0' as int
    } else {
        c as int - 'a' as int + 10
    }
}

/// The number that hexadecimal digits stand for.
pub open spec fn hex_value(s: Seq<char>) -> int
    decreases s.len(),
{
    if s.len() == 0 {
        0
    } else {
        16 * hex_value(s.drop_last()) + digit_value(s.last())
    }
}

proof fn lemma_hex_value(n: nat, k: nat)
    requires
        n < hex_range(k),
    ensures
        hex_digits(n, k).len() == k,
        hex_value(hex_digits(n, k)) == n,
        forall|i: int|
            0 <= i < k ==> '0' <= #[trigger] hex_digits(n, k)[i] <= '9' || 'a' <= hex_digits(
                n,
                k,
            )[i] <= 'f',
    decreases k,
{
    if k > 0 {
        let j = (k - 1) as nat;
        lemma_hex_value(n / 16, j);
        let a = hex_digits(n / 16, j);
        let d = hex_digit((n % 16) as int);
        assert(hex_digits(n, k) == a.push(d));
        assert(a.push(d).drop_last() =~= a);
        assert(digit_value(d) == n % 16);
        assert forall|i: int| 0 <= i < k implies '0' <= #[trigger] hex_digits(n, k)[i] <= '9'
            || 'a' <= hex_digits(n, k)[i] <= 'f' by {
            if i < j {
                assert(hex_digits(n, k)[i] == a[i]);
            }
        }
    }
}

/// An identifier is `call_` and its number in sixteen hexadecimal digits.
pub proof fn law_call_id_holds_its_number(n: u64)
    ensures
        call_id(n).len() == 21,
        call_id(n).take(5) == "call_"@,
        hex_value(call_id(n).skip(5)) == n,
        forall|i: int|
            5 <= i < 21 ==> '0' <= #[trigger] call_id(n)[i] <= '9' || 'a' <= call_id(n)[i] <= 'f',
{
    reveal_strlit("call_");
    assert(hex_range(16) == 0x1_0000_0000_0000_0000) by {
        reveal_with_fuel(hex_range, 17);
    }
    lemma_hex_value(n as nat, 16);
    let digits = hex_digits(n as nat, 16);
    assert(call_id(n).take(5) =~= "call_"@);
    assert(call_id(n).skip(5) =~= digits);
    assert forall|i: int| 5 <= i < 21 implies '0' <= #[trigger] call_id(n)[i] <= '9' || 'a'
        <= call_id(n)[i] <= 'f' by {
        assert(call_id(n)[i] == digits[i - 5]);
    }
}

/// Numbers follow one another, and the first comes after the last.
pub proof fn law_numbers_follow(n: u64)
    ensures
        n < u64::MAX ==> number_after(n, 1) == n + 1,
        number_after(u64::MAX, 1) == 0,
{
}

} // verus!

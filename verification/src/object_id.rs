use vstd::prelude::*;
use vstd::arithmetic::div_mod::lemma_fundamental_div_mod;

verus! {

/// True of the characters that may appear in a record identifier: the
/// store's identifier format is hexadecimal.
pub open spec fn is_hex_digit(c: char) -> bool {
    ('0' <= c && c <= '9') || ('a' <= c && c <= 'f') || ('A' <= c && c <= 'F')
}

/// A well-formed record identifier: exactly 24 hexadecimal digits.
pub open spec fn id_well_formed(s: Seq<char>) -> bool {
    s.len() == 24 && (forall|i: int| 0 <= i < s.len() ==> is_hex_digit(#[trigger] s[i]))
}

/// Decides whether an identifier string is well-formed, before the store is
/// ever asked about it.
pub fn check_id(s: &str) -> (r: bool)
    ensures
        r == id_well_formed(s@),
{
    let n = s.unicode_len();
    if n != 24 {
        return false;
    }
    let mut i: usize = 0;
    while i < n
        invariant
            n == s@.len(),
            n == 24,
            i <= n,
            forall|j: int| 0 <= j < i ==> is_hex_digit(#[trigger] s@[j]),
        decreases n - i,
    {
        let c = s.get_char(i);
        let ok = ('0' <= c && c <= '9') || ('a' <= c && c <= 'f') || ('A' <= c && c <= 'F');
        if !ok {
            return false;
        }
        i = i + 1;
    }
    true
}

/// The character for one decimal digit.
pub open spec fn digit_char(d: int) -> char {
    if d == 0 {
        '0'
    } else if d == 1 {
        '1'
    } else if d == 2 {
        '2'
    } else if d == 3 {
        '3'
    } else if d == 4 {
        '4'
    } else if d == 5 {
        '5'
    } else if d == 6 {
        '6'
    } else if d == 7 {
        '7'
    } else if d == 8 {
        '8'
    } else {
        '9'
    }
}

/// The `k` low decimal digits of `v`, least significant first.
pub open spec fn dec_digits(v: nat, k: nat) -> Seq<char>
    decreases k,
{
    if k == 0 {
        Seq::empty()
    } else {
        seq![digit_char((v % 10) as int)] + dec_digits(v / 10, (k - 1) as nat)
    }
}

/// The identifier the store assigns to the `c`-th record ever inserted.
pub open spec fn assigned_id(c: nat) -> Seq<char> {
    dec_digits(c, 24)
}

/// Powers of ten.
pub open spec fn pow10(k: nat) -> nat
    decreases k,
{
    if k == 0 {
        1
    } else {
        10 * pow10((k - 1) as nat)
    }
}

/// An assigned identifier is well-formed: 24 digits, all hexadecimal.
pub proof fn lemma_dec_digits_wf(v: nat, k: nat)
    ensures
        dec_digits(v, k).len() == k,
        forall|i: int| 0 <= i < k ==> is_hex_digit(#[trigger] dec_digits(v, k)[i]),
    decreases k,
{
    if k > 0 {
        lemma_dec_digits_wf(v / 10, (k - 1) as nat);
        assert forall|i: int| 0 <= i < k implies is_hex_digit(#[trigger] dec_digits(v, k)[i]) by {
            if i == 0 {
                assert(dec_digits(v, k)[0] == digit_char((v % 10) as int));
            } else {
                assert(dec_digits(v, k)[i] == dec_digits(v / 10, (k - 1) as nat)[i - 1]);
            }
        }
    }
}

/// Distinct creation counters below `pow10(k)` yield distinct identifiers.
pub proof fn lemma_dec_digits_injective(v1: nat, v2: nat, k: nat)
    requires
        v1 < pow10(k),
        v2 < pow10(k),
        dec_digits(v1, k) == dec_digits(v2, k),
    ensures
        v1 == v2,
    decreases k,
{
    if k == 0 {
    } else {
        let d1 = dec_digits(v1, k);
        let d2 = dec_digits(v2, k);
        lemma_dec_digits_wf(v1 / 10, (k - 1) as nat);
        lemma_dec_digits_wf(v2 / 10, (k - 1) as nat);
        assert(d1[0] == digit_char((v1 % 10) as int));
        assert(d2[0] == digit_char((v2 % 10) as int));
        assert(v1 % 10 == v2 % 10);
        assert(dec_digits(v1 / 10, (k - 1) as nat) =~= d1.subrange(1, k as int));
        assert(dec_digits(v2 / 10, (k - 1) as nat) =~= d2.subrange(1, k as int));
        lemma_fundamental_div_mod(v1 as int, 10);
        lemma_fundamental_div_mod(v2 as int, 10);
        assert(10 * (v1 / 10) < 10 * pow10((k - 1) as nat));
        assert(10 * (v2 / 10) < 10 * pow10((k - 1) as nat));
        lemma_dec_digits_injective(v1 / 10, v2 / 10, (k - 1) as nat);
    }
}

/// Every 64-bit creation counter lies below `pow10(24)`.
pub proof fn lemma_u64_below_pow10_24(n: u64)
    ensures
        (n as nat) < pow10(24),
{
    assert(pow10(24) == 1000000000000000000000000) by {
        reveal_with_fuel(pow10, 25);
    }
}

/// Appends one decimal digit character to a string.
fn append_digit(s: &mut String, d: u64)
    requires
        d < 10,
    ensures
        final(s)@ == old(s)@ + seq![digit_char(d as int)],
{
    if d == 0 {
        s.append("0");
        proof {
            reveal_strlit("0");
            assert(final(s)@ =~= old(s)@ + seq![digit_char(d as int)]);
        }
    } else if d == 1 {
        s.append("1");
        proof {
            reveal_strlit("1");
            assert(final(s)@ =~= old(s)@ + seq![digit_char(d as int)]);
        }
    } else if d == 2 {
        s.append("2");
        proof {
            reveal_strlit("2");
            assert(final(s)@ =~= old(s)@ + seq![digit_char(d as int)]);
        }
    } else if d == 3 {
        s.append("3");
        proof {
            reveal_strlit("3");
            assert(final(s)@ =~= old(s)@ + seq![digit_char(d as int)]);
        }
    } else if d == 4 {
        s.append("4");
        proof {
            reveal_strlit("4");
            assert(final(s)@ =~= old(s)@ + seq![digit_char(d as int)]);
        }
    } else if d == 5 {
        s.append("5");
        proof {
            reveal_strlit("5");
            assert(final(s)@ =~= old(s)@ + seq![digit_char(d as int)]);
        }
    } else if d == 6 {
        s.append("6");
        proof {
            reveal_strlit("6");
            assert(final(s)@ =~= old(s)@ + seq![digit_char(d as int)]);
        }
    } else if d == 7 {
        s.append("7");
        proof {
            reveal_strlit("7");
            assert(final(s)@ =~= old(s)@ + seq![digit_char(d as int)]);
        }
    } else if d == 8 {
        s.append("8");
        proof {
            reveal_strlit("8");
            assert(final(s)@ =~= old(s)@ + seq![digit_char(d as int)]);
        }
    } else {
        s.append("9");
        proof {
            reveal_strlit("9");
            assert(final(s)@ =~= old(s)@ + seq![digit_char(d as int)]);
        }
    }
}

/// Builds the identifier string for creation counter `n`.
pub fn make_id(n: u64) -> (s: String)
    ensures
        s@ == assigned_id(n as nat),
{
    let mut s = String::new();
    let mut cur: u64 = n;
    let mut i: usize = 0;
    proof {
        assert(s@ + dec_digits(n as nat, 24) =~= dec_digits(n as nat, 24));
    }
    while i < 24
        invariant
            i <= 24,
            s@ + dec_digits(cur as nat, (24 - i) as nat) == assigned_id(n as nat),
        decreases 24 - i,
    {
        let ghost pre = s@;
        let ghost pre_cur = cur as nat;
        let d = cur % 10;
        append_digit(&mut s, d);
        cur = cur / 10;
        i = i + 1;
        proof {
            assert(dec_digits(pre_cur, (24 - i + 1) as nat) == seq![digit_char((pre_cur % 10) as int)]
                + dec_digits(pre_cur / 10, (24 - i) as nat));
            assert(s@ + dec_digits(cur as nat, (24 - i) as nat) =~= pre + dec_digits(
                pre_cur,
                (24 - i + 1) as nat,
            ));
        }
    }
    proof {
        assert(s@ =~= assigned_id(n as nat));
    }
    s
}

} // verus!

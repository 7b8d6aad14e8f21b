//! Small text helpers for presenting numbers, addresses and long strings.

use vstd::prelude::*;
use vstd::string::StrSliceExecFns;
use vstd::string::StringExecFns;

verus! {

/// The character writing the decimal digit `d`.
pub open spec fn digit_char(d: nat) -> char {
    if d == 0 {
        '0'
    } else if d == 1 {
        '1'
    } else if d == 2 {
        '2'
    } else if d == 3 {
        '3'
    } else if d == 4 {
        '4'
    } else if d == 5 {
        '5'
    } else if d == 6 {
        '6'
    } else if d == 7 {
        '7'
    } else if d == 8 {
        '8'
    } else {
        '9'
    }
}

/// The decimal writing of `n`, most significant digit first.
pub open spec fn spec_decimal(n: nat) -> Seq<char>
    decreases n,
{
    if n < 10 {
        seq![digit_char(n)]
    } else {
        spec_decimal(n / 10).push(digit_char(n % 10))
    }
}

/// The digit values of `ds`, read last to first, as characters.
spec fn chars_rev(ds: Seq<u64>) -> Seq<char>
    decreases ds.len(),
{
    if ds.len() == 0 {
        Seq::empty()
    } else {
        seq![digit_char(ds.last() as nat)] + chars_rev(ds.drop_last())
    }
}

proof fn lemma_chars_rev_index(ds: Seq<u64>)
    ensures
        chars_rev(ds).len() == ds.len(),
        forall|t: int|
            0 <= t < ds.len() ==> #[trigger] chars_rev(ds)[t] == digit_char(
                ds[ds.len() - 1 - t] as nat,
            ),
    decreases ds.len(),
{
    if ds.len() > 0 {
        lemma_chars_rev_index(ds.drop_last());
        assert forall|t: int|
            0 <= t < ds.len() implies #[trigger] chars_rev(ds)[t] == digit_char(
            ds[ds.len() - 1 - t] as nat,
        ) by {
            if t > 0 {
                assert(chars_rev(ds)[t] == chars_rev(ds.drop_last())[t - 1]);
                assert(ds.drop_last()[ds.len() - 1 - t] == ds[ds.len() - 1 - t]);
            }
        }
    }
}

/// One digit as text.
fn digit_str(d: u64) -> (r: &'static str)
    requires
        d < 10,
    ensures
        r@ == seq![digit_char(d as nat)],
{
    if d == 0 {
        proof {
            reveal_strlit("0");
        }
        assert(("0")@ =~= seq![digit_char(0)]);
        "0"
    } else if d == 1 {
        proof {
            reveal_strlit("1");
        }
        assert(("1")@ =~= seq![digit_char(1)]);
        "1"
    } else if d == 2 {
        proof {
            reveal_strlit("2");
        }
        assert(("2")@ =~= seq![digit_char(2)]);
        "2"
    } else if d == 3 {
        proof {
            reveal_strlit("3");
        }
        assert(("3")@ =~= seq![digit_char(3)]);
        "3"
    } else if d == 4 {
        proof {
            reveal_strlit("4");
        }
        assert(("4")@ =~= seq![digit_char(4)]);
        "4"
    } else if d == 5 {
        proof {
            reveal_strlit("5");
        }
        assert(("5")@ =~= seq![digit_char(5)]);
        "5"
    } else if d == 6 {
        proof {
            reveal_strlit("6");
        }
        assert(("6")@ =~= seq![digit_char(6)]);
        "6"
    } else if d == 7 {
        proof {
            reveal_strlit("7");
        }
        assert(("7")@ =~= seq![digit_char(7)]);
        "7"
    } else if d == 8 {
        proof {
            reveal_strlit("8");
        }
        assert(("8")@ =~= seq![digit_char(8)]);
        "8"
    } else {
        proof {
            reveal_strlit("9");
        }
        assert(("9")@ =~= seq![digit_char(9)]);
        "9"
    }
}

/// The decimal digits of `n`, least significant first.
fn collect_digits(n: u64) -> (ds: Vec<u64>)
    ensures
        ds@.len() >= 1,
        forall|k: int| 0 <= k < ds@.len() ==> ds@[k] < 10,
        chars_rev(ds@) == spec_decimal(n as nat),
{
    let mut ds: Vec<u64> = Vec::new();
    if n == 0 {
        ds.push(0);
        proof {
            assert(ds@.last() == 0u64);
            assert(ds@.drop_last() =~= Seq::<u64>::empty());
            assert(chars_rev(Seq::<u64>::empty()) =~= Seq::<char>::empty());
            assert(chars_rev(ds@) =~= seq![digit_char(0)]);
        }
        return ds;
    }
    let mut rem: u64 = n;
    while rem > 0
        invariant
            rem <= n,
            n > 0,
            forall|k: int| 0 <= k < ds@.len() ==> ds@[k] < 10,
            rem > 0 ==> spec_decimal(n as nat) == spec_decimal(rem as nat) + chars_rev(ds@),
            rem == 0 ==> spec_decimal(n as nat) == chars_rev(ds@) && ds@.len() >= 1,
        decreases rem,
    {
        let ghost prior = ds@;
        let d = rem % 10;
        ds.push(d);
        proof {
            assert(ds@.last() == d);
            assert(ds@.drop_last() =~= prior);
            assert(chars_rev(ds@) == seq![digit_char(d as nat)] + chars_rev(prior));
            if rem >= 10 {
                assert(spec_decimal(rem as nat) == spec_decimal((rem as nat) / 10).push(
                    digit_char((rem as nat) % 10),
                ));
                assert(spec_decimal((rem as nat) / 10).push(digit_char(d as nat))
                    =~= spec_decimal((rem as nat) / 10) + seq![digit_char(d as nat)]);
                assert((spec_decimal((rem as nat) / 10) + seq![digit_char(d as nat)]) + chars_rev(
                    prior,
                ) =~= spec_decimal((rem as nat) / 10) + chars_rev(ds@));
            } else {
                assert(spec_decimal(rem as nat) == seq![digit_char(rem as nat)]);
                assert(seq![digit_char(d as nat)] + chars_rev(prior) =~= chars_rev(ds@));
            }
        }
        rem = rem / 10;
    }
    ds
}

/// The decimal writing of `n` as a string.
pub fn decimal_string(n: u64) -> (r: String)
    ensures
        r@ == spec_decimal(n as nat),
{
    let ds = collect_digits(n);
    let len = ds.len();
    proof {
        lemma_chars_rev_index(ds@);
    }
    let mut r = String::new();
    let mut t: usize = 0;
    while t < len
        invariant
            t <= len,
            len == ds@.len(),
            forall|k: int| 0 <= k < ds@.len() ==> ds@[k] < 10,
            chars_rev(ds@) == spec_decimal(n as nat),
            r@.len() == t,
            forall|k: int| 0 <= k < t ==> r@[k] == digit_char(ds@[len - 1 - k] as nat),
        decreases len - t,
    {
        let piece = digit_str(ds[len - 1 - t]);
        r.append(piece);
        t += 1;
    }
    proof {
        lemma_chars_rev_index(ds@);
        assert(r@ =~= chars_rev(ds@));
    }
    r
}

/// The digits of `s` with a comma after every position from which a
/// multiple of three digits remains, as `format_number` writes them.
pub open spec fn grouped(s: Seq<char>, i: int) -> Seq<char>
    decreases s.len() - i,
{
    if i < 0 || i >= s.len() {
        Seq::empty()
    } else {
        let sep: Seq<char> = if (s.len() - i - 1) % 3 == 0 && i < s.len() - 1 {
            seq![',']
        } else {
            Seq::empty()
        };
        seq![s[i]] + sep + grouped(s, i + 1)
    }
}

/// Write `num` in decimal with commas separating groups of three digits.
pub fn format_number(num: u64) -> (r: String)
    ensures
        r@ == grouped(spec_decimal(num as nat), 0),
{
    let ds = collect_digits(num);
    let len = ds.len();
    let ghost dec = spec_decimal(num as nat);
    proof {
        lemma_chars_rev_index(ds@);
        assert(dec.len() == len);
    }
    let mut r = String::new();
    let mut t: usize = 0;
    proof {
        assert(r@ + grouped(dec, 0) =~= grouped(dec, 0));
    }
    while t < len
        invariant
            t <= len,
            len == ds@.len(),
            forall|k: int| 0 <= k < ds@.len() ==> ds@[k] < 10,
            dec == spec_decimal(num as nat),
            chars_rev(ds@) == dec,
            dec.len() == len,
            grouped(dec, 0) == r@ + grouped(dec, t as int),
        decreases len - t,
    {
        let ghost r0 = r@;
        let d = ds[len - 1 - t];
        let piece = digit_str(d);
        r.append(piece);
        proof {
            lemma_chars_rev_index(ds@);
            assert(dec[t as int] == digit_char(d as nat));
        }
        let with_sep = (len - t - 1) % 3 == 0 && t < len - 1;
        if with_sep {
            r.append(",");
            proof {
                reveal_strlit(",");
                assert((",")@ =~= seq![',']);
            }
        }
        proof {
            let sep: Seq<char> = if with_sep {
                seq![',']
            } else {
                Seq::empty()
            };
            assert(r@ =~= r0 + (seq![dec[t as int]] + sep));
            assert(grouped(dec, t as int) == seq![dec[t as int]] + sep + grouped(
                dec,
                t as int + 1,
            ));
            assert(r0 + (seq![dec[t as int]] + sep + grouped(dec, t as int + 1)) =~= r@ + grouped(
                dec,
                t as int + 1,
            ));
        }
        t += 1;
    }
    proof {
        assert(r@ + grouped(dec, len as int) =~= r@);
    }
    r
}

/// Shorten an address to its first six and last four characters around an
/// ellipsis; an address shorter than ten characters is returned whole.
pub fn format_address(address: &str) -> (r: String)
    requires
        address.is_ascii(),
    ensures
        address@.len() < 10 ==> r@ == address@,
        address@.len() >= 10 ==> r@ == address@.subrange(0, 6) + "....."@ + address@.subrange(
            address@.len() - 4,
            address@.len() as int,
        ),
{
    let n = address.unicode_len();
    if n < 10 {
        return address.to_owned();
    }
    let head = address.substring_ascii(0, 6);
    let tail = address.substring_ascii(n - 4, n);
    let mut r = head.to_owned();
    r.append(".....");
    r.append(tail);
    r
}

/// Cut `s` after `max_len` characters, noting its full length; a string
/// within the limit is returned whole.
pub fn truncate_string(s: &str, max_len: usize) -> (r: String)
    requires
        s.is_ascii(),
    ensures
        s@.len() <= max_len ==> r@ == s@,
        s@.len() > max_len ==> r@ == s@.subrange(0, max_len as int) + "..... ("@ + spec_decimal(
            s@.len(),
        ) + " chars total)"@,
{
    let n = s.unicode_len();
    if n <= max_len {
        return s.to_owned();
    }
    let mut r = s.substring_ascii(0, max_len).to_owned();
    r.append("..... (");
    let count = decimal_string(n as u64);
    r.append(count.as_str());
    r.append(" chars total)");
    r
}

} // verus!

//! Recognising well-known function selectors in transaction input data.
//!
//! The first four bytes of a contract call's input select the function.  A
//! small table maps the widely used selectors to their signatures; an
//! unknown selector is reported with its hexadecimal value, and input too
//! short to carry a selector is simply unknown.

use vstd::prelude::*;
use vstd::string::StringExecFns;

verus! {

/// The lowercase hexadecimal digit character for `d`.
pub open spec fn hex_char(d: nat) -> char {
    if d == 0 {
        '0'
    } else if d == 1 {
        '1'
    } else if d == 2 {
        '2'
    } else if d == 3 {
        '3'
    } else if d == 4 {
        '4'
    } else if d == 5 {
        '5'
    } else if d == 6 {
        '6'
    } else if d == 7 {
        '7'
    } else if d == 8 {
        '8'
    } else if d == 9 {
        '9'
    } else if d == 10 {
        'a'
    } else if d == 11 {
        'b'
    } else if d == 12 {
        'c'
    } else if d == 13 {
        'd'
    } else if d == 14 {
        'e'
    } else {
        'f'
    }
}

/// The lowercase hexadecimal writing of `bytes`, two digits per byte.
pub open spec fn hex_of(bytes: Seq<u8>) -> Seq<char>
    decreases bytes.len(),
{
    if bytes.len() == 0 {
        Seq::empty()
    } else {
        let last = bytes.last();
        hex_of(bytes.drop_last()) + seq![hex_char(last as nat / 16), hex_char(last as nat % 16)]
    }
}

/// One hexadecimal digit as text.
fn hex_digit_str(d: u8) -> (r: &'static str)
    requires
        d < 16,
    ensures
        r@ == seq![hex_char(d as nat)],
{
    if d == 0 {
        proof {
            reveal_strlit("0");
        }
        assert(("0")@ =~= seq![hex_char(0)]);
        "0"
    } else if d == 1 {
        proof {
            reveal_strlit("1");
        }
        assert(("1")@ =~= seq![hex_char(1)]);
        "1"
    } else if d == 2 {
        proof {
            reveal_strlit("2");
        }
        assert(("2")@ =~= seq![hex_char(2)]);
        "2"
    } else if d == 3 {
        proof {
            reveal_strlit("3");
        }
        assert(("3")@ =~= seq![hex_char(3)]);
        "3"
    } else if d == 4 {
        proof {
            reveal_strlit("4");
        }
        assert(("4")@ =~= seq![hex_char(4)]);
        "4"
    } else if d == 5 {
        proof {
            reveal_strlit("5");
        }
        assert(("5")@ =~= seq![hex_char(5)]);
        "5"
    } else if d == 6 {
        proof {
            reveal_strlit("6");
        }
        assert(("6")@ =~= seq![hex_char(6)]);
        "6"
    } else if d == 7 {
        proof {
            reveal_strlit("7");
        }
        assert(("7")@ =~= seq![hex_char(7)]);
        "7"
    } else if d == 8 {
        proof {
            reveal_strlit("8");
        }
        assert(("8")@ =~= seq![hex_char(8)]);
        "8"
    } else if d == 9 {
        proof {
            reveal_strlit("9");
        }
        assert(("9")@ =~= seq![hex_char(9)]);
        "9"
    } else if d == 10 {
        proof {
            reveal_strlit("a");
        }
        assert(("a")@ =~= seq![hex_char(10)]);
        "a"
    } else if d == 11 {
        proof {
            reveal_strlit("b");
        }
        assert(("b")@ =~= seq![hex_char(11)]);
        "b"
    } else if d == 12 {
        proof {
            reveal_strlit("c");
        }
        assert(("c")@ =~= seq![hex_char(12)]);
        "c"
    } else if d == 13 {
        proof {
            reveal_strlit("d");
        }
        assert(("d")@ =~= seq![hex_char(13)]);
        "d"
    } else if d == 14 {
        proof {
            reveal_strlit("e");
        }
        assert(("e")@ =~= seq![hex_char(14)]);
        "e"
    } else {
        proof {
            reveal_strlit("f");
        }
        assert(("f")@ =~= seq![hex_char(15)]);
        "f"
    }
}

/// The lowercase hexadecimal writing of `bytes` as a string.
pub fn hex_string(bytes: &[u8]) -> (r: String)
    ensures
        r@ == hex_of(bytes@),
{
    let mut r = String::new();
    let mut i: usize = 0;
    proof {
        assert(bytes@.subrange(0, 0) =~= Seq::<u8>::empty());
    }
    while i < bytes.len()
        invariant
            i <= bytes@.len(),
            r@ == hex_of(bytes@.subrange(0, i as int)),
        decreases bytes@.len() - i,
    {
        let b = bytes[i];
        r.append(hex_digit_str(b / 16));
        r.append(hex_digit_str(b % 16));
        proof {
            let now = bytes@.subrange(0, i as int + 1);
            assert(now.last() == b);
            assert(now.drop_last() =~= bytes@.subrange(0, i as int));
            assert(r@ =~= hex_of(now));
        }
        i += 1;
    }
    proof {
        assert(bytes@.subrange(0, bytes@.len() as int) =~= bytes@);
    }
    r
}

/// The signature a well-known selector stands for, if it is in the table.
pub open spec fn known_signature_spec(a: u8, b: u8, c: u8, d: u8) -> Option<Seq<char>> {
    if a == 0xa9 && b == 0x05 && c == 0x9c && d == 0xbb {
        Some(("transfer(address,uint256)")@)
    } else if a == 0x09 && b == 0x5e && c == 0xa7 && d == 0xb3 {
        Some(("approve(address,uint256)")@)
    } else if a == 0x23 && b == 0xb8 && c == 0x72 && d == 0xdd {
        Some(("transferFrom(address,address,uint256)")@)
    } else if a == 0x70 && b == 0xa0 && c == 0x82 && d == 0x31 {
        Some(("balanceOf(address)")@)
    } else if a == 0xdd && b == 0x62 && c == 0xed && d == 0x3e {
        Some(("allowance(address,address)")@)
    } else if a == 0x18 && b == 0x16 && c == 0x0d && d == 0xdd {
        Some(("totalSupply()")@)
    } else if a == 0x06 && b == 0xfd && c == 0xde && d == 0x03 {
        Some(("name()")@)
    } else if a == 0x95 && b == 0xd8 && c == 0x9b && d == 0x41 {
        Some(("symbol()")@)
    } else if a == 0x31 && b == 0x3c && c == 0xe5 && d == 0x67 {
        Some(("decimals()")@)
    } else if a == 0x02 && b == 0x2c && c == 0x0d && d == 0x9f {
        Some(("swap(uint256,uint256,address,bytes)")@)
    } else if a == 0xe8 && b == 0xe3 && c == 0x37 && d == 0x00 {
        Some(("addLiquidity(address,address,uint256,uint256)")@)
    } else if a == 0x2e && b == 0x1a && c == 0x7d && d == 0x4d {
        Some(("withdraw(uint256)")@)
    } else if a == 0xd0 && b == 0xe3 && c == 0x0d && d == 0xb0 {
        Some(("deposit()")@)
    } else {
        None
    }
}

fn known_signature(a: u8, b: u8, c: u8, d: u8) -> (r: Option<&'static str>)
    ensures
        r matches Some(s) ==> known_signature_spec(a, b, c, d) == Some(s@),
        r is None ==> known_signature_spec(a, b, c, d) is None,
{
    if a == 0xa9 && b == 0x05 && c == 0x9c && d == 0xbb {
        Some("transfer(address,uint256)")
    } else if a == 0x09 && b == 0x5e && c == 0xa7 && d == 0xb3 {
        Some("approve(address,uint256)")
    } else if a == 0x23 && b == 0xb8 && c == 0x72 && d == 0xdd {
        Some("transferFrom(address,address,uint256)")
    } else if a == 0x70 && b == 0xa0 && c == 0x82 && d == 0x31 {
        Some("balanceOf(address)")
    } else if a == 0xdd && b == 0x62 && c == 0xed && d == 0x3e {
        Some("allowance(address,address)")
    } else if a == 0x18 && b == 0x16 && c == 0x0d && d == 0xdd {
        Some("totalSupply()")
    } else if a == 0x06 && b == 0xfd && c == 0xde && d == 0x03 {
        Some("name()")
    } else if a == 0x95 && b == 0xd8 && c == 0x9b && d == 0x41 {
        Some("symbol()")
    } else if a == 0x31 && b == 0x3c && c == 0xe5 && d == 0x67 {
        Some("decimals()")
    } else if a == 0x02 && b == 0x2c && c == 0x0d && d == 0x9f {
        Some("swap(uint256,uint256,address,bytes)")
    } else if a == 0xe8 && b == 0xe3 && c == 0x37 && d == 0x00 {
        Some("addLiquidity(address,address,uint256,uint256)")
    } else if a == 0x2e && b == 0x1a && c == 0x7d && d == 0x4d {
        Some("withdraw(uint256)")
    } else if a == 0xd0 && b == 0xe3 && c == 0x0d && d == 0xb0 {
        Some("deposit()")
    } else {
        None
    }
}

/// What `decode_function_signature` writes for the given call input.
pub open spec fn function_signature_spec(input: Seq<u8>) -> Seq<char> {
    if input.len() < 4 {
        ("Unknown")@
    } else {
        match known_signature_spec(input[0], input[1], input[2], input[3]) {
            Some(sig) => sig,
            None => ("Unknown (Selector: 0x")@ + hex_of(input.subrange(0, 4)) + (")")@,
        }
    }
}

/// Name the function a call input selects: the table's signature for a
/// well-known selector, the selector's hexadecimal value otherwise, and
/// "Unknown" when the input is too short to carry a selector.
pub fn decode_function_signature(input: &[u8]) -> (r: String)
    ensures
        r@ == function_signature_spec(input@),
{
    if input.len() < 4 {
        return "Unknown".to_owned();
    }
    match known_signature(input[0], input[1], input[2], input[3]) {
        Some(sig) => sig.to_owned(),
        None => {
            let mut r = "Unknown (Selector: 0x".to_owned();
            let mut sel: Vec<u8> = Vec::new();
            sel.push(input[0]);
            sel.push(input[1]);
            sel.push(input[2]);
            sel.push(input[3]);
            let selector = hex_string(sel.as_slice());
            proof {
                assert(sel@ =~= input@.subrange(0, 4));
            }
            r.append(selector.as_str());
            r.append(")");
            r
        },
    }
}

} // verus!

//! Small text helpers: string equality, decimal rendering of integers, and
//! substring search over bytes.

use vstd::prelude::*;

verus! {

use vstd::string::*;

/// Byte-wise string equality. Two strings are equal exactly when their
/// UTF-8 encodings are.
pub fn str_eq(a: &str, b: &str) -> (r: bool)
    ensures
        r == (a@ == b@),
{
    let ab = a.as_bytes();
    let bb = b.as_bytes();
    if ab.len() != bb.len() {
        proof {
            assert(a@ != b@) by {
                if a@ == b@ {
                    assert(a.spec_bytes() == b.spec_bytes());
                }
            }
        }
        return false;
    }
    let mut i: usize = 0;
    while i < ab.len()
        invariant
            i <= ab@.len(),
            ab@.len() == bb@.len(),
            ab@ == a.spec_bytes(),
            bb@ == b.spec_bytes(),
            forall|j: int| 0 <= j < i ==> ab@[j] == bb@[j],
        decreases ab@.len() - i,
    {
        if ab[i] != bb[i] {
            proof {
                assert(a@ != b@) by {
                    if a@ == b@ {
                        assert(a.spec_bytes() == b.spec_bytes());
                    }
                }
            }
            return false;
        }
        i += 1;
    }
    proof {
        assert(a.spec_bytes() =~= b.spec_bytes());
        vstd::utf8::encode_utf8_decode_utf8(a@);
        vstd::utf8::encode_utf8_decode_utf8(b@);
    }
    true
}

/// The character for one decimal digit.
pub open spec fn digit_char(d: int) -> char {
    if d == 0 {
        '0'
    } else if d == 1 {
        '1'
    } else if d == 2 {
        '2'
    } else if d == 3 {
        '3'
    } else if d == 4 {
        '4'
    } else if d == 5 {
        '5'
    } else if d == 6 {
        '6'
    } else if d == 7 {
        '7'
    } else if d == 8 {
        '8'
    } else {
        '9'
    }
}

/// The decimal rendering of a non-negative integer, most significant digit
/// first, with no leading zeros (except for zero itself).
pub open spec fn spec_decimal(n: int) -> Seq<char>
    decreases n,
{
    if n < 10 {
        seq![digit_char(n)]
    } else {
        spec_decimal(n / 10) + seq![digit_char(n % 10)]
    }
}

fn digit_str(d: u64) -> (r: &'static str)
    requires
        d < 10,
    ensures
        r@ == seq![digit_char(d as int)],
{
    proof {
        reveal_strlit("0");
        reveal_strlit("1");
        reveal_strlit("2");
        reveal_strlit("3");
        reveal_strlit("4");
        reveal_strlit("5");
        reveal_strlit("6");
        reveal_strlit("7");
        reveal_strlit("8");
        reveal_strlit("9");
    }
    let r: &'static str = if d == 0 {
        "0"
    } else if d == 1 {
        "1"
    } else if d == 2 {
        "2"
    } else if d == 3 {
        "3"
    } else if d == 4 {
        "4"
    } else if d == 5 {
        "5"
    } else if d == 6 {
        "6"
    } else if d == 7 {
        "7"
    } else if d == 8 {
        "8"
    } else {
        "9"
    };
    proof {
        assert(r@ =~= seq![digit_char(d as int)]);
    }
    r
}

/// Renders an unsigned integer in decimal.
pub fn u64_to_decimal(n: u64) -> (r: String)
    ensures
        r@ == spec_decimal(n as int),
    decreases n,
{
    if n < 10 {
        String::from_str(digit_str(n))
    } else {
        let prefix = u64_to_decimal(n / 10);
        let r = prefix.concat(digit_str(n % 10));
        proof {
            assert(r@ =~= spec_decimal(n as int));
        }
        r
    }
}

/// Relies on String::from_utf8: it succeeds exactly on valid UTF-8 and
/// returns the decoded characters.
#[verifier::external_body]
pub(crate) fn bytes_to_string(b: Vec<u8>) -> (r: Option<String>)
    ensures
        r is Some <==> vstd::utf8::valid_utf8(b@),
        r is Some ==> r.unwrap()@ == vstd::utf8::decode_utf8(b@),
{
    match String::from_utf8(b) {
        Ok(s) => Some(s),
        Err(_) => None,
    }
}

/// Whether `needle` occurs as a contiguous run inside `haystack`.
pub open spec fn spec_contains(haystack: Seq<u8>, needle: Seq<u8>) -> bool {
    exists|i: int|
        #![trigger haystack.subrange(i, i + needle.len())]
        0 <= i && i + needle.len() <= haystack.len() && haystack.subrange(
            i,
            i + needle.len(),
        ) == needle
}

/// Substring search over bytes.
#[verifier::loop_isolation(false)]
pub fn bytes_contain(haystack: &[u8], needle: &[u8]) -> (r: bool)
    ensures
        r == spec_contains(haystack@, needle@),
{
    if needle.len() > haystack.len() {
        proof {
            assert forall|i: int|
                #![trigger haystack@.subrange(i, i + needle@.len())]
                !(0 <= i && i + needle@.len() <= haystack@.len() && haystack@.subrange(
                    i,
                    i + needle@.len(),
                ) == needle@) by {}
            assert(!spec_contains(haystack@, needle@));
        }
        return false;
    }
    if needle.len() == 0 {
        proof {
            assert(haystack@.subrange(0, 0 + needle@.len() as int) =~= needle@);
        }
        return true;
    }
    let mut start: usize = 0;
    while start <= haystack.len() - needle.len()
        invariant
            1 <= needle@.len() <= haystack@.len(),
            start <= haystack@.len() - needle@.len() + 1,
            forall|i: int|
                #![trigger haystack@.subrange(i, i + needle@.len())]
                0 <= i < start ==> haystack@.subrange(i, i + needle@.len()) != needle@,
        decreases haystack@.len() - start,
    {
        let mut j: usize = 0;
        let mut matches = true;
        while j < needle.len()
            invariant
                matches ==> forall|k: int|
                    0 <= k < j ==> haystack@[start + k] == needle@[k],
                !matches ==> haystack@.subrange(start as int, start + needle@.len())
                    != needle@,
                j <= needle@.len(),
                start + needle@.len() <= haystack@.len(),
            decreases needle@.len() - j,
        {
            if haystack[start + j] != needle[j] {
                matches = false;
                proof {
                    assert(haystack@.subrange(
                        start as int,
                        start + needle@.len(),
                    )[j as int] == haystack@[start + j]);
                    assert(haystack@.subrange(start as int, start + needle@.len())
                        != needle@);
                }
                j = needle.len();
            } else {
                j += 1;
            }
        }
        if matches {
            proof {
                assert(haystack@.subrange(start as int, start + needle@.len())
                    =~= needle@);
            }
            return true;
        }
        start += 1;
    }
    proof {
        assert(forall|i: int|
            #![trigger haystack@.subrange(i, i + needle@.len())]
            0 <= i && i + needle@.len() <= haystack@.len() ==> haystack@.subrange(
                i,
                i + needle@.len(),
            ) != needle@);
    }
    false
}

} // verus!

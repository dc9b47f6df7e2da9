use vstd::prelude::*;
use vstd::string::StringExecFns;
use crate::object::{Object, ObjV};

verus! {

/// The character for one decimal digit value.
pub open spec fn dec_digit(d: int) -> char {
    ((48 + d) as u8) as char
}

/// Decimal text of a non-negative integer, most significant digit first.
pub open spec fn dec_nat(n: int) -> Seq<char>
    decreases n,
{
    if n < 10 {
        seq![dec_digit(if n >= 0 {
            n
        } else {
            0
        })]
    } else {
        dec_nat(n / 10).push(dec_digit(n % 10))
    }
}

/// Decimal text of an integer: a minus sign before the magnitude when
/// negative.
pub open spec fn dec_int(v: int) -> Seq<char> {
    if v < 0 {
        seq!['-'] + dec_nat(-v)
    } else {
        dec_nat(v)
    }
}

/// The display text of a runtime value: an integer renders as its decimal
/// text, a boolean as `true` or `false`, the null object as `null`, a string
/// as its characters, a `Return` marker as its inner value, and a function
/// value as `fn`.
pub open spec fn obj_text(o: ObjV) -> Seq<char>
    decreases o,
{
    match o {
        ObjV::Integer(x) => dec_int(x as int),
        ObjV::Boolean(b) => if b {
            "true"@
        } else {
            "false"@
        },
        ObjV::Null => "null"@,
        ObjV::String(s) => s,
        ObjV::Return(inner) => obj_text(*inner),
        ObjV::Function(_, _, _) => "fn"@,
    }
}

/// Reversed digit bytes read as characters: the text whose last character is
/// the first byte of `ds`.
spec fn rev_chars(ds: Seq<u8>) -> Seq<char>
    decreases ds,
{
    if ds.len() == 0 {
        Seq::empty()
    } else {
        rev_chars(ds.subrange(1, ds.len() as int)) + seq![ds[0] as char]
    }
}

proof fn lemma_rev_chars_push(ds: Seq<u8>, b: u8)
    ensures
        rev_chars(ds.push(b)) == seq![b as char] + rev_chars(ds),
    decreases ds,
{
    let p = ds.push(b);
    if ds.len() == 0 {
        assert(p.subrange(1, p.len() as int) =~= Seq::<u8>::empty());
        assert(rev_chars(Seq::<u8>::empty()) =~= Seq::<char>::empty());
        assert(p[0] == b);
        assert(rev_chars(p) == rev_chars(p.subrange(1, p.len() as int)) + seq![p[0] as char]);
        assert(rev_chars(p) =~= seq![b as char] + rev_chars(ds));
    } else {
        assert(p.subrange(1, p.len() as int) =~= ds.subrange(1, ds.len() as int).push(b));
        lemma_rev_chars_push(ds.subrange(1, ds.len() as int), b);
        assert(rev_chars(p) =~= seq![b as char] + rev_chars(ds));
    }
}

/// Decimal text of a 32-bit magnitude.
pub fn dec_u32_string(n: u32) -> (r: String)
    ensures
        r@ == dec_nat(n as int),
{
    let mut digits: Vec<u8> = Vec::new();
    let mut m: u32 = n;
    proof {
        assert(dec_nat(n as int) + rev_chars(digits@) =~= dec_nat(n as int));
    }
    loop
        invariant_except_break
            dec_nat(n as int) == dec_nat(m as int) + rev_chars(digits@),
            forall|j: int| 0 <= j < digits@.len() ==> digits@[j] < 128,
        ensures
            rev_chars(digits@) == dec_nat(n as int),
            forall|j: int| 0 <= j < digits@.len() ==> digits@[j] < 128,
        decreases m,
    {
        let d: u8 = (m % 10) as u8 + 48;
        let ghost olddigits = digits@;
        let ghost oldm = m as int;
        digits.push(d);
        proof {
            lemma_rev_chars_push(olddigits, d);
        }
        m = m / 10;
        if m == 0 {
            proof {
                assert(oldm < 10);
                assert(dec_nat(oldm) == seq![dec_digit(oldm)]);
                assert(dec_digit(oldm) == d as char);
                assert(dec_nat(oldm) + rev_chars(olddigits) =~= rev_chars(digits@));
                assert(dec_nat(0) + rev_chars(digits@) =~= seq![dec_digit(0)] + rev_chars(
                    digits@,
                ));
            }
            break ;
        }
        proof {
            assert(oldm >= 10);
            assert(dec_nat(oldm) == dec_nat(oldm / 10).push(dec_digit(oldm % 10)));
            assert(dec_digit(oldm % 10) == d as char);
            assert(dec_nat(oldm / 10).push(dec_digit(oldm % 10)) + rev_chars(olddigits)
                =~= dec_nat(m as int) + rev_chars(digits@));
        }
    }
    let mut out: Vec<u8> = Vec::new();
    let n_digits = digits.len();
    let mut j: usize = 0;
    proof {
        assert(digits@.subrange(n_digits as int, n_digits as int) =~= Seq::<u8>::empty());
        assert(crate::lexer::bytes_chars(out@) =~= rev_chars(
            digits@.subrange(n_digits as int, n_digits as int),
        ));
    }
    while j < n_digits
        invariant
            n_digits == digits@.len(),
            j <= n_digits,
            crate::lexer::bytes_chars(out@) == rev_chars(
                digits@.subrange(n_digits - j, n_digits as int),
            ),
            out@.len() == j,
            forall|k: int| 0 <= k < out@.len() ==> out@[k] < 128,
            forall|k: int| 0 <= k < digits@.len() ==> digits@[k] < 128,
        decreases n_digits - j,
    {
        let ghost oldout = out@;
        out.push(digits[n_digits - 1 - j]);
        j += 1;
        proof {
            let tail = digits@.subrange(n_digits - j, n_digits as int);
            assert(tail.subrange(1, tail.len() as int) =~= digits@.subrange(
                n_digits - j + 1,
                n_digits as int,
            ));
            assert(crate::lexer::bytes_chars(out@) =~= rev_chars(tail));
        }
    }
    proof {
        assert(digits@.subrange(0, n_digits as int) =~= digits@);
    }
    crate::lexer::ascii_to_string(out)
}

/// Decimal text of a 32-bit signed integer.
pub fn int_to_string(v: i32) -> (r: String)
    ensures
        r@ == dec_int(v as int),
{
    if v >= 0 {
        dec_u32_string(v as u32)
    } else {
        let mag: u32 = (-(v as i64)) as u32;
        let tail = dec_u32_string(mag);
        let mut s = String::new();
        s.append("-");
        proof {
            reveal_strlit("-");
        }
        s.append(tail.as_str());
        proof {
            assert(s@ =~= dec_int(v as int));
        }
        s
    }
}

/// The display text of a runtime value, as a host embedding shows it.
pub fn unwrap_object(obj: &Object) -> (r: String)
    ensures
        r@ == obj_text(obj@),
    decreases *obj,
{
    match obj {
        Object::Integer(x) => int_to_string(*x),
        Object::Boolean(b) => {
            if *b {
                String::from_str("true")
            } else {
                String::from_str("false")
            }
        },
        Object::Null => String::from_str("null"),
        Object::String(s) => s.clone(),
        Object::Return(inner) => unwrap_object(inner),
        Object::Function(_, _, _) => String::from_str("fn"),
    }
}

} // verus!

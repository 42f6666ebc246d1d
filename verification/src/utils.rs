//! Instance-parameter lookup and decimal parsing.
use vstd::prelude::*;
use vstd::string::{StrSliceExecFns, StringExecFns};

verus! {

/// Whether a character is a decimal digit.
pub open spec fn spec_is_digit(c: char) -> bool {
    48 <= c as int <= 57
}

/// The value of a decimal digit character.
pub open spec fn digit_val(c: char) -> int {
    c as int - 48
}

/// The value of a run of decimal digit characters.
pub open spec fn dec_val(s: Seq<char>) -> int
    decreases s.len(),
{
    if s.len() == 0 {
        0
    } else {
        dec_val(s.drop_last()) * 10 + digit_val(s.last())
    }
}

/// Whether a string parses as an unsigned 64-bit decimal number.
pub open spec fn parses_as_u64(s: Seq<char>) -> bool {
    &&& s.len() > 0
    &&& forall|i: int| 0 <= i < s.len() ==> spec_is_digit(#[trigger] s[i])
    &&& dec_val(s) <= 0xffff_ffff_ffff_ffff
}

/// The value bound to the first occurrence of a key.
pub open spec fn lookup_param(params: Seq<(String, String)>, k: Seq<char>) -> Option<Seq<char>>
    decreases params.len(),
{
    if params.len() == 0 {
        None
    } else if params[0].0@ == k {
        Some(params[0].1@)
    } else {
        lookup_param(params.skip(1), k)
    }
}

/// The parsed value of a parameter, when it is present and parses.
pub open spec fn param_u64(params: Seq<(String, String)>, k: Seq<char>) -> Option<int> {
    match lookup_param(params, k) {
        None => None,
        Some(v) => if parses_as_u64(v) {
            Some(dec_val(v))
        } else {
            None
        },
    }
}

/// The failure message for a parameter: it names the key that is missing,
/// or the key whose value did not parse.
pub open spec fn param_error(params: Seq<(String, String)>, k: Seq<char>) -> Seq<char> {
    if lookup_param(params, k) is None {
        k + " is not specified."@
    } else {
        "Failed to parse instance_param. key: "@ + k
    }
}

proof fn lemma_dec_val_nonneg(s: Seq<char>)
    requires
        forall|i: int| 0 <= i < s.len() ==> spec_is_digit(#[trigger] s[i]),
    ensures
        dec_val(s) >= 0,
    decreases s.len(),
{
    if s.len() > 0 {
        assert(forall|i: int|
            0 <= i < s.drop_last().len() ==> spec_is_digit(#[trigger] s.drop_last()[i]));
        lemma_dec_val_nonneg(s.drop_last());
        assert(dec_val(s.drop_last()) * 10 >= 0) by (nonlinear_arith)
            requires
                dec_val(s.drop_last()) >= 0,
        ;
    }
}

proof fn lemma_dec_val_prefix(s: Seq<char>, m: int)
    requires
        forall|i: int| 0 <= i < s.len() ==> spec_is_digit(#[trigger] s[i]),
        0 <= m <= s.len(),
    ensures
        dec_val(s.take(m)) <= dec_val(s),
    decreases s.len() - m,
{
    if m < s.len() {
        lemma_dec_val_prefix(s, m + 1);
        assert(s.take(m + 1).drop_last() =~= s.take(m));
        assert(s.take(m + 1).last() == s[m]);
        let v = dec_val(s.take(m));
        assert(forall|i: int| 0 <= i < s.take(m).len() ==> spec_is_digit(#[trigger] s.take(m)[i]));
        lemma_dec_val_nonneg(s.take(m));
        assert(v <= v * 10 + digit_val(s[m])) by (nonlinear_arith)
            requires
                v >= 0,
                digit_val(s[m]) >= 0,
        ;
    } else {
        assert(s.take(m) =~= s);
    }
}

/// Finds the value bound to the first occurrence of a key.
fn find_param<'a>(k: &String, instance_params: &'a Vec<(String, String)>) -> (r: Option<
    &'a String,
>)
    ensures
        match lookup_param(instance_params@, k@) {
            None => r is None,
            Some(v) => r matches Some(x) && x@ == v,
        },
{
    let ghost params = instance_params@;
    proof {
        assert(params.skip(0) =~= params);
    }
    let mut i: usize = 0;
    while i < instance_params.len()
        invariant
            i <= params.len(),
            params == instance_params@,
            lookup_param(params, k@) == lookup_param(params.skip(i as int), k@),
        decreases params.len() - i,
    {
        proof {
            assert(params.skip(i as int)[0] == params[i as int]);
            assert(params.skip(i as int).skip(1) =~= params.skip(i + 1));
        }
        if instance_params[i].0 == *k {
            return Some(&instance_params[i].1);
        }
        i = i + 1;
    }
    None
}

/// The message for a key whose value did not parse.
fn unparsable_message(k: &String) -> (r: String)
    ensures
        r@ == "Failed to parse instance_param. key: "@ + k@,
{
    let mut message = String::from_str("Failed to parse instance_param. key: ");
    message.append(k.as_str());
    message
}

/// Reads a named `u64` from the instance parameters.
///
/// Succeeds exactly when the key is bound and its value is a nonempty run of
/// decimal digits whose value fits in 64 bits; the failure message names the
/// key that was missing or whose value did not parse.
pub fn get_param(k: &String, instance_params: &Vec<(String, String)>) -> (r: Result<u64, String>)
    ensures
        match param_u64(instance_params@, k@) {
            Some(v) => r == Ok::<u64, String>(v as u64),
            None => r is Err,
        },
        r matches Err(m) ==> m@ == param_error(instance_params@, k@),
        param_u64(instance_params@, k@) matches Some(v) ==> 0 <= v <= 0xffff_ffff_ffff_ffff,
{
    proof {
        if param_u64(instance_params@, k@) is Some {
            let v = lookup_param(instance_params@, k@).unwrap();
            lemma_dec_val_nonneg(v);
        }
    }
    let value = match find_param(k, instance_params) {
        Some(v) => v,
        None => {
            let mut message = k.clone();
            message.append(" is not specified.");
            return Err(message);
        },
    };
    let s: &str = value.as_str();
    let n = s.unicode_len();
    if n == 0 {
        return Err(unparsable_message(k));
    }
    let mut acc: u64 = 0;
    let mut j: usize = 0;
    while j < n
        invariant
            j <= n,
            n == s@.len(),
            n > 0,
            lookup_param(instance_params@, k@) == Some(s@),
            forall|x: int| 0 <= x < j ==> spec_is_digit(#[trigger] s@[x]),
            acc == dec_val(s@.take(j as int)),
        decreases n - j,
    {
        let c = s.get_char(j);
        let cv = c as u32;
        if cv < 48 || cv > 57 {
            proof {
                assert(!spec_is_digit(s@[j as int]));
            }
            return Err(unparsable_message(k));
        }
        let d = (cv - 48) as u64;
        proof {
            assert(s@.take(j + 1).drop_last() =~= s@.take(j as int));
            assert(s@.take(j + 1).last() == s@[j as int]);
        }
        if acc > (0xffff_ffff_ffff_ffffu64 - d) / 10 {
            proof {
                let m: int = 0xffff_ffff_ffff_ffff;
                let q = (m - d) / 10;
                vstd::arithmetic::div_mod::lemma_fundamental_div_mod(m - d, 10);
                assert(acc * 10 >= (q + 1) * 10) by (nonlinear_arith)
                    requires
                        acc >= q + 1,
                ;
                assert(dec_val(s@.take(j + 1)) > m);
                assert(forall|x: int|
                    0 <= x < s@.len() ==> x < j + 1 || spec_is_digit(#[trigger] s@[x]) || !(
                    spec_is_digit(s@[x])));
                if forall|x: int| 0 <= x < s@.len() ==> spec_is_digit(#[trigger] s@[x]) {
                    lemma_dec_val_prefix(s@, j + 1);
                }
            }
            return Err(unparsable_message(k));
        }
        acc = acc * 10 + d;
        j = j + 1;
    }
    proof {
        assert(s@.take(n as int) =~= s@);
    }
    Ok(acc)
}

} // verus!

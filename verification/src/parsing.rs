//! Interpretation of free text typed at the prompt: loose integer lists and
//! yes/no answers.

use vstd::prelude::*;

use crate::sanitizers::{dec_digit_value, is_dec_digit_char};

verus! {

/// Left-to-right scan of `s` for runs of decimal digits: the values of the
/// runs already ended, and the value of the run still open, if one is.
pub open spec fn int_scan(s: Seq<char>) -> (Seq<int>, Option<int>)
    decreases s.len(),
{
    if s.len() == 0 {
        (Seq::empty(), None)
    } else {
        let prev = int_scan(s.drop_last());
        if is_dec_digit_char(s.last()) {
            let v = match prev.1 {
                Some(v) => v,
                None => 0,
            };
            (prev.0, Some(10 * v + dec_digit_value(s.last())))
        } else {
            match prev.1 {
                Some(v) => (prev.0.push(v), None),
                None => (prev.0, None),
            }
        }
    }
}

/// The values of all maximal runs of decimal digits in `s`, in order.
pub open spec fn parsed_integers(s: Seq<char>) -> Seq<int> {
    let sc = int_scan(s);
    match sc.1 {
        Some(v) => sc.0.push(v),
        None => sc.0,
    }
}

/// After reading `i` characters, the open digit run's value, if a run is
/// open, stays within `i32`.
pub open spec fn pending_value_fits(s: Seq<char>, i: int) -> bool {
    match int_scan(s.take(i)).1 {
        Some(v) => v <= i32::MAX as int,
        None => true,
    }
}

/// No run of decimal digits in `s` outgrows `i32`.
pub open spec fn runs_fit_i32(s: Seq<char>) -> bool {
    forall|i: int| 0 <= i <= s.len() ==> #[trigger] pending_value_fits(s, i)
}

/// Collects every integer written in the text, however the runs of digits
/// are separated.
pub fn parse_integers(int_str: &String) -> (r: Vec<i32>)
    requires
        runs_fit_i32(int_str@),
    ensures
        r@.map_values(|x: i32| x as int) == parsed_integers(int_str@),
{
    let n = int_str.as_str().unicode_len();
    let mut out: Vec<i32> = Vec::new();
    let mut pending: bool = false;
    let mut acc: i32 = 0;
    let mut i: usize = 0;
    while i < n
        invariant
            0 <= i <= n,
            n == int_str@.len(),
            runs_fit_i32(int_str@),
            out@.map_values(|x: i32| x as int) == int_scan(int_str@.take(i as int)).0,
            pending ==> int_scan(int_str@.take(i as int)).1 == Some(acc as int),
            !pending ==> int_scan(int_str@.take(i as int)).1 is None && acc == 0,
            acc >= 0,
        decreases n - i,
    {
        let c = int_str.as_str().get_char(i);
        proof {
            assert(int_str@.take(i as int + 1).drop_last() =~= int_str@.take(i as int));
            assert(int_str@.take(i as int + 1).last() == int_str@[i as int]);
        }
        let u = c as u32;
        if 48 <= u && u <= 57 {
            let d = (u - 48) as i32;
            proof {
                assert(pending_value_fits(int_str@, i as int + 1));
                assert(int_scan(int_str@.take(i as int + 1)).1 == Some(
                    10 * (acc as int) + d as int,
                ));
            }
            acc = acc * 10 + d;
            pending = true;
        } else {
            if pending {
                let ghost prev = out@;
                out.push(acc);
                proof {
                    assert(out@.map_values(|x: i32| x as int) =~= prev.map_values(
                        |x: i32| x as int,
                    ).push(acc as int));
                }
                acc = 0;
                pending = false;
            }
        }
        i += 1;
    }
    proof {
        assert(int_str@.take(n as int) =~= int_str@);
    }
    if pending {
        let ghost prev = out@;
        out.push(acc);
        proof {
            assert(out@.map_values(|x: i32| x as int) =~= prev.map_values(|x: i32| x as int).push(
                acc as int,
            ));
        }
    }
    out
}

/// The yes-answers a confirmation prompt accepts: `y` or `yes` in any
/// mixture of letter case.
pub open spec fn spec_is_affirmative(s: Seq<char>) -> bool {
    ||| s.len() == 1 && (s[0] == 'y' || s[0] == 'Y')
    ||| s.len() == 3 && (s[0] == 'y' || s[0] == 'Y') && (s[1] == 'e' || s[1] == 'E') && (s[2]
        == 's' || s[2] == 'S')
}

/// Whether a typed answer counts as a yes.
pub fn is_affirmative(answer: &str) -> (r: bool)
    ensures
        r == spec_is_affirmative(answer@),
{
    let n = answer.unicode_len();
    if n == 1 {
        let c = answer.get_char(0);
        c == 'y' || c == 'Y'
    } else if n == 3 {
        let c0 = answer.get_char(0);
        let c1 = answer.get_char(1);
        let c2 = answer.get_char(2);
        (c0 == 'y' || c0 == 'Y') && (c1 == 'e' || c1 == 'E') && (c2 == 's' || c2 == 'S')
    } else {
        false
    }
}

} // verus!

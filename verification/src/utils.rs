//! Small helpers around the engine: naming-convention conversion for
//! controller and action names.

use vstd::prelude::*;
use crate::ascii::{spec_lower_byte};

verus! {

/// Holds of lowercase ASCII letters, the only bytes that uppercasing
/// would change.
pub open spec fn is_lowercase_letter(b: u8) -> bool {
    97 <= b <= 122
}

/// The kebab form of a name, scanned left to right: a byte that is not a
/// lowercase letter starts or continues an uppercase run; the first byte
/// of each run gets a dash before it, and every byte of a run is folded
/// to lowercase.
pub open spec fn spec_kebab(s: Seq<u8>, last_upper: bool) -> Seq<u8>
    decreases s.len(),
{
    if s.len() == 0 {
        Seq::empty()
    } else {
        (if !is_lowercase_letter(s[0]) {
            (if last_upper {
                seq![spec_lower_byte(s[0])]
            } else {
                seq![45u8, spec_lower_byte(s[0])]
            }) + spec_kebab(s.drop_first(), true)
        } else {
            seq![s[0]] + spec_kebab(s.drop_first(), false)
        })
    }
}

/// The kebab form of a whole name, with a dash at the very front removed.
pub open spec fn spec_camel_to_kebab(s: Seq<u8>) -> Seq<u8> {
    let r = spec_kebab(s, false);
    if r.len() > 0 && r[0] == 45 {
        r.drop_first()
    } else {
        r
    }
}

/// Converts a camel-case name to its kebab form: each uppercase run gets
/// one leading dash and is folded to lowercase, except at the very start
/// of the name.
pub fn camel_to_kebab(value: &[u8]) -> (r: Vec<u8>)
    ensures
        r@ == spec_camel_to_kebab(value@),
{
    let mut out: Vec<u8> = Vec::new();
    let mut is_last_upper = false;
    let mut i: usize = 0;
    proof {
        assert(value@.skip(0) =~= value@);
        assert(out@ + spec_kebab(value@, false) =~= spec_kebab(value@, false));
    }
    while i < value.len()
        invariant
            i <= value.len(),
            out@ + spec_kebab(value@.skip(i as int), is_last_upper) =~= spec_kebab(value@, false),
        decreases value.len() - i,
    {
        let ghost rest = value@.skip(i as int);
        proof {
            assert(rest[0] == value@[i as int]);
            assert(rest.drop_first() =~= value@.skip(i + 1));
        }
        let ch = value[i];
        if !(97 <= ch && ch <= 122) {
            if is_last_upper {
                out.push(crate::ascii::lower_byte(ch));
            } else {
                out.push(45);
                out.push(crate::ascii::lower_byte(ch));
            }
            is_last_upper = true;
        } else {
            out.push(ch);
            is_last_upper = false;
        }
        i = i + 1;
    }
    proof {
        assert(value@.skip(value@.len() as int) =~= Seq::<u8>::empty());
        assert(spec_kebab(Seq::<u8>::empty(), is_last_upper) =~= Seq::<u8>::empty());
        assert(out@ =~= spec_kebab(value@, false));
    }
    if out.len() > 0 && out[0] == 45 {
        out.remove(0);
        proof {
            assert(out@ =~= spec_kebab(value@, false).drop_first());
        }
    }
    out
}

} // verus!

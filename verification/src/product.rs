//! The name of the product whose transcripts are read.
//!
//! Its environment variables begin with it in capitals; its directories are named after it in
//! small letters.

use vstd::prelude::*;

use crate::text::{chars_of, lower, lower_of};

verus! {

/// The environment variable that relocates the config directory.
pub const CONFIG_VAR: &'static str = "CLAUDE_CONFIG_DIR";

/// The name in capitals.
pub open spec fn capitals() -> Seq<char> {
    "CLAUDE_CONFIG_DIR"@.take(6)
}

/// The name in small letters, as directories have it.
pub open spec fn small() -> Seq<char> {
    capitals().map_values(|c: char| lower(c))
}

/// The name with a capital letter, as people write it.
pub open spec fn title_case() -> Seq<char> {
    seq![capitals()[0]] + small().skip(1)
}

/// The name, with its first letter as it is or as a small one.
fn spelled(keep_first: bool) -> (r: String)
    ensures
        r@ == if keep_first {
            title_case()
        } else {
            small()
        },
{
    let chars = chars_of(CONFIG_VAR);
    let ghost wanted = if keep_first {
        title_case()
    } else {
        small()
    };
    proof {
        reveal_strlit("CLAUDE_CONFIG_DIR");
    }
    let mut s = String::new();
    let mut i: usize = 0;
    assert(s@ =~= wanted.take(0));
    while i < 6
        invariant
            i <= 6,
            chars@ == "CLAUDE_CONFIG_DIR"@,
            chars@.len() >= 6,
            wanted == if keep_first {
                title_case()
            } else {
                small()
            },
            wanted.len() == 6,
            s@ == wanted.take(i as int),
        decreases 6 - i,
    {
        let c = chars[i];
        assert(small()[i as int] == lower(c));
        assert(i > 0 ==> title_case()[i as int] == lower(c));
        s.push(
            if i == 0 && keep_first {
                c
            } else {
                lower_of(c)
            },
        );
        assert(s@ =~= wanted.take(i + 1));
        i += 1;
    }
    assert(wanted.take(6) =~= wanted);
    s
}

/// The name in small letters.
pub fn name() -> (r: String)
    ensures
        r@ == small(),
{
    spelled(false)
}

/// The name with a capital letter.
pub fn title() -> (r: String)
    ensures
        r@ == title_case(),
{
    spelled(true)
}

/// The name has six letters, all small, or with a capital first.
pub proof fn how_the_name_is_spelled(i: int)
    requires
        0 <= i < 6,
    ensures
        small().len() == 6,
        title_case().len() == 6,
        'A' <= CONFIG_VAR@[i] <= 'Z',
        small()[i] as u32 == CONFIG_VAR@[i] as u32 + 32,
        title_case()[0] == CONFIG_VAR@[0],
        i > 0 ==> title_case()[i] == small()[i],
        CONFIG_VAR@[6] == '_',
{
    reveal_strlit("CLAUDE_CONFIG_DIR");
}

} // verus!

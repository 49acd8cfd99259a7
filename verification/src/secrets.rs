//! A basic heuristic for spotting secrets in captured file contents.

use vstd::prelude::*;
use crate::text::contains_sub;
use crate::text::has_sub;
use crate::text::lower_of;
use crate::text::lowercase;
use crate::text::str_to_chars;

verus! {

/// The lowercase fragments that signal a potential secret.
pub open spec fn secret_signals() -> Seq<Seq<char>> {
    seq![
        "api_key"@,
        "apikey"@,
        "secret"@,
        "token"@,
        "aws_access_key_id"@,
        "aws_secret_access_key"@,
        "github_token"@,
        "bearer "@,
        "private_key"@,
        "-----begin"@,
    ]
}

/// The lowered text contains one of the signal fragments.
pub open spec fn spec_has_signal(lowered: Seq<char>) -> bool {
    exists|i: int| 0 <= i < secret_signals().len() && has_sub(lowered, #[trigger] secret_signals()[i])
}

/// Decide whether already-lowercased text contains a signal fragment.
pub fn has_secret_signal(lowered: &str) -> (r: bool)
    ensures
        r == spec_has_signal(lowered@),
{
    proof {
        reveal_strlit("api_key");
        reveal_strlit("apikey");
        reveal_strlit("secret");
        reveal_strlit("token");
        reveal_strlit("aws_access_key_id");
        reveal_strlit("aws_secret_access_key");
        reveal_strlit("github_token");
        reveal_strlit("bearer ");
        reveal_strlit("private_key");
        reveal_strlit("-----begin");
    }
    let v = str_to_chars(lowered);
    let c0 = contains_sub(&v, &str_to_chars("api_key"));
    let c1 = contains_sub(&v, &str_to_chars("apikey"));
    let c2 = contains_sub(&v, &str_to_chars("secret"));
    let c3 = contains_sub(&v, &str_to_chars("token"));
    let c4 = contains_sub(&v, &str_to_chars("aws_access_key_id"));
    let c5 = contains_sub(&v, &str_to_chars("aws_secret_access_key"));
    let c6 = contains_sub(&v, &str_to_chars("github_token"));
    let c7 = contains_sub(&v, &str_to_chars("bearer "));
    let c8 = contains_sub(&v, &str_to_chars("private_key"));
    let c9 = contains_sub(&v, &str_to_chars("-----begin"));
    let r = c0 || c1 || c2 || c3 || c4 || c5 || c6 || c7 || c8 || c9;
    proof {
        let sigs = secret_signals();
        if r {
            if c0 {
                assert(has_sub(lowered@, sigs[0]));
            } else if c1 {
                assert(has_sub(lowered@, sigs[1]));
            } else if c2 {
                assert(has_sub(lowered@, sigs[2]));
            } else if c3 {
                assert(has_sub(lowered@, sigs[3]));
            } else if c4 {
                assert(has_sub(lowered@, sigs[4]));
            } else if c5 {
                assert(has_sub(lowered@, sigs[5]));
            } else if c6 {
                assert(has_sub(lowered@, sigs[6]));
            } else if c7 {
                assert(has_sub(lowered@, sigs[7]));
            } else if c8 {
                assert(has_sub(lowered@, sigs[8]));
            } else {
                assert(has_sub(lowered@, sigs[9]));
            }
        } else {
            assert forall|i: int| 0 <= i < sigs.len() implies !has_sub(
                lowered@,
                #[trigger] sigs[i],
            ) by {
                if i == 0 {
                } else if i == 1 {
                } else if i == 2 {
                } else if i == 3 {
                } else if i == 4 {
                } else if i == 5 {
                } else if i == 6 {
                } else if i == 7 {
                } else if i == 8 {
                } else {
                }
            }
        }
    }
    r
}

/// Decide whether the contents hold a potential secret: the text is
/// lowercased and scanned for the signal fragments.
pub fn contains_potential_secret(contents: &str) -> (r: bool)
    ensures
        r == spec_has_signal(lower_of(contents@)),
{
    let lowered = lowercase(contents);
    has_secret_signal(lowered.as_str())
}

} // verus!

//! Identifier validation and page classification: the prefix check that
//! runs before any network access, the stripping of a file-extension-like
//! suffix, and the redirect-marker test that tells an unknown identifier
//! from a transport failure.

use vstd::prelude::*;
use vstd::string::{StrSliceExecFns, StringExecFns};

use crate::error::Error;
use crate::text::{check_match_at, contains_seq, str_contains};

verus! {

/// A well-formed property identifier starts with the fixed prefix `a4O`.
pub open spec fn spec_id_ok(s: Seq<char>) -> bool {
    s.len() >= 3 && s.subrange(0, 3) == "a4O"@
}

/// The identifier with every `.ics` occurrence removed, scanning left to
/// right without overlap.
pub open spec fn spec_remove_ics(s: Seq<char>) -> Seq<char>
    decreases s.len(),
{
    if s.len() == 0 {
        Seq::empty()
    } else if s.len() >= 4 && s.subrange(0, 4) == ".ics"@ {
        spec_remove_ics(s.skip(4))
    } else {
        seq![s[0]] + spec_remove_ics(s.skip(1))
    }
}

/// Removes every `.ics` occurrence from the identifier.
fn remove_ics(s: &str) -> (r: String)
    ensures
        r@ == spec_remove_ics(s@),
{
    let n = s.unicode_len();
    let mut out = String::new();
    let mut i: usize = 0;
    proof {
        assert(s@.skip(0) =~= s@);
        assert(out@ + spec_remove_ics(s@) =~= spec_remove_ics(s@));
    }
    while i < n
        invariant
            0 <= i <= n,
            n == s@.len(),
            spec_remove_ics(s@) == out@ + spec_remove_ics(s@.skip(i as int)),
        decreases n - i,
    {
        proof {
            reveal_strlit(".ics");
        }
        if n - i >= 4 && check_match_at(s, ".ics", i) {
            proof {
                assert(s@.skip(i as int).subrange(0, 4) =~= s@.subrange(i as int, i + 4));
                assert(s@.skip(i as int).skip(4) =~= s@.skip(i + 4));
            }
            i = i + 4;
        } else {
            let piece = s.substring_char(i, i + 1);
            out.append(piece);
            proof {
                if i + 4 <= n {
                    assert(s@.subrange(i as int, i + 4) =~= s@.skip(i as int).subrange(0, 4));
                }
                assert(s@.skip(i as int)[0] == s@[i as int]);
                assert(piece@ =~= seq![s@[i as int]]);
                assert(s@.skip(i as int).skip(1) =~= s@.skip(i + 1));
                assert(out@ + piece@ + spec_remove_ics(s@.skip(i + 1)) =~= out@ + (seq![
                    s@[i as int],
                ] + spec_remove_ics(s@.skip(i + 1))));
            }
            i = i + 1;
        }
    }
    proof {
        assert(s@.skip(n as int) =~= Seq::<char>::empty());
        assert(out@ + Seq::<char>::empty() =~= out@);
    }
    out
}

/// Validates the identifier before any network access: it must carry the
/// known prefix, and a trailing `.ics`-style suffix is stripped from the
/// accepted form. A failing identifier is reported as `IdError` carrying
/// the identifier itself.
pub fn validate_id(id: &str) -> (r: Result<String, Error>)
    ensures
        spec_id_ok(id@) ==> (r matches Ok(s) && s@ == spec_remove_ics(id@)),
        !spec_id_ok(id@) ==> (r matches Err(e) && e matches Error::IdError(orig) && orig@ == id@),
{
    proof {
        reveal_strlit("a4O");
    }
    let n = id.unicode_len();
    if n >= 3 && check_match_at(id, "a4O", 0) {
        proof {
            assert(id@.subrange(0, 3) =~= "a4O"@);
        }
        Ok(remove_ics(id))
    } else {
        Err(Error::IdError(String::from_str(id)))
    }
}

/// Whether the identifier asks for the calendar-file rendering by carrying
/// an `.ics` suffix anywhere in it.
pub fn is_ics_request(id: &str) -> (r: bool)
    ensures
        r == contains_seq(id@, ".ics"@),
{
    str_contains(id, ".ics")
}

/// Whether a fetched page is the upstream redirect landing page, which
/// marks an identifier the city does not recognize.
pub fn is_redirect_page(page: &str) -> (r: bool)
    ensures
        r == contains_seq(page@, "handleRedirect"@),
{
    str_contains(page, "handleRedirect")
}

} // verus!

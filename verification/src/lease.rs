//! The file that keeps a second process off the same wallet.

use vstd::prelude::*;
use crate::laneid;
use crate::text;
use crate::text::owned;

verus! {

/// The address of a wallet without case or mark.
pub open spec fn wallet_of(funder: Seq<char>) -> Seq<char> {
    text::lower_of(laneid::hex_only(text::bare(funder)))
}

/// Where the file of a wallet stands; an address that is not complete has none.
pub fn lease_path(funder: &str) -> (r: Result<String, String>)
    ensures
        if wallet_of(funder@).len() == 40 {
            r matches Ok(p) && p@ == "/tmp/copybot-"@ + wallet_of(funder@) + ".lease"@
        } else {
            r matches Err(e) && e@ == "cannot derive execution lease from funder "@ + text::quoted(
                funder@,
            )
        },
{
    let raw = laneid::hex_digits(&text::strip_0x(&text::chars_of(funder)));
    let wallet = text::lower_chars(text::text_of(&raw).as_str());
    if wallet.len() != 40 {
        let mut e = owned("cannot derive execution lease from funder ");
        e.append(text::quote(funder).as_str());
        return Err(e);
    }
    let mut p = owned("/tmp/copybot-");
    p.append(text::text_of(&wallet).as_str());
    p.append(".lease");
    Ok(p)
}

} // verus!

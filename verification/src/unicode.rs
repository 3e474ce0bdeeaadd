use vstd::prelude::*;

verus! {

/// Whether `c` has the Unicode property XID_Start, as the tables of `unic-ucd-ident` record it.
pub uninterp spec fn xid_start(c: char) -> bool;

/// Whether `c` has the Unicode property XID_Continue, as the tables of `unic-ucd-ident` record it.
pub uninterp spec fn xid_continue(c: char) -> bool;

/// Whether `c` has the Unicode property Emoji_Presentation, as the tables of
/// `unic-emoji-char` record it.
pub uninterp spec fn emoji_presentation(c: char) -> bool;

/// `unic_ucd_ident::is_xid_start`: a table lookup of the XID_Start property.
#[verifier::external_body]
pub(crate) fn is_xid_start(c: char) -> (r: bool)
    ensures
        r == xid_start(c),
{
    unic_ucd_ident::is_xid_start(c)
}

/// `unic_ucd_ident::is_xid_continue`: a table lookup of the XID_Continue property.
#[verifier::external_body]
pub(crate) fn is_xid_continue(c: char) -> (r: bool)
    ensures
        r == xid_continue(c),
{
    unic_ucd_ident::is_xid_continue(c)
}

/// `unic_emoji_char::is_emoji_presentation`: a table lookup of the Emoji_Presentation property.
#[verifier::external_body]
pub(crate) fn is_emoji_presentation(c: char) -> (r: bool)
    ensures
        r == emoji_presentation(c),
{
    unic_emoji_char::is_emoji_presentation(c)
}

} // verus!

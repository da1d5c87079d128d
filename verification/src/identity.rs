use vstd::prelude::*;

use openssl::stack::Stack;
use openssl::x509::{GeneralName, X509};
use vstd::slice::slice_index_get;

verus! {

/// A certificate's subject alternative names, in the `openssl::stack::Stack` in which openssl
/// hands them out. Verus sees none of its contents: `name_entries` says what it holds.
#[verifier::external_body]
pub struct AltNames {
    names: Stack<GeneralName>,
}

/// The name under which a user is known: the email address in the user's certificate.
pub type Identity = String;

/// What a list of subject alternative names holds: for each entry in order, its email address
/// where the entry is an email address (an rfc822Name) whose text is valid UTF-8, and `None` for
/// any other entry.
pub uninterp spec fn name_entries(names: AltNames) -> Seq<Option<Seq<char>>>;

/// What openssl finds in DER-encoded bytes: `None` where `X509::from_der` finds no certificate
/// in them, or where `X509_get_ext_d2i` gives no subject alternative names for it (the
/// certificate has no such extension, or it is malformed or repeated), else the entries of that
/// extension, read as `name_entries` reads them.
pub uninterp spec fn der_alt_name_entries(der: Seq<u8>) -> Option<Seq<Option<Seq<char>>>>;

/// `openssl::x509::X509::from_der` followed by `openssl::x509::X509Ref::subject_alt_names` on
/// the certificate it gives: the subject alternative names of the certificate that DER-encoded
/// bytes hold. `None` where the bytes hold no certificate or the certificate has no such
/// extension. Both calls depend on the bytes alone; the certificate in between is opaque, so
/// the two stand in one item.
#[verifier::external_body]
fn alt_names_of_der(der: &[u8]) -> (names: Option<AltNames>)
    ensures
        match der_alt_name_entries(der@) {
            Some(e) => names matches Some(n) && name_entries(n) == e,
            None => names is None,
        },
{
    match X509::from_der(der) {
        Ok(cert) => cert.subject_alt_names().map(|names| AltNames { names }),
        Err(_) => None,
    }
}

/// `openssl::stack::StackRef::len`: the number of entries in the list.
#[verifier::external_body]
fn name_count(names: &AltNames) -> (n: usize)
    ensures
        n == name_entries(*names).len(),
{
    names.names.len()
}

/// `openssl::stack::StackRef::get` on entry `i`, the entry taken by its email address with
/// `openssl::x509::GeneralNameRef::email`.
#[verifier::external_body]
fn name_email(names: &AltNames, i: usize) -> (email: Option<String>)
    requires
        i < name_entries(*names).len(),
    ensures
        match name_entries(*names)[i as int] {
            Some(e) => email matches Some(s) && s@ == e,
            None => email is None,
        },
{
    match names.names.get(i) {
        Some(name) => name.email().map(|s| s.to_owned()),
        None => None,
    }
}

/// The first email address among the entries, if any.
pub open spec fn first_email(entries: Seq<Option<Seq<char>>>) -> Option<Seq<char>>
    decreases entries.len(),
{
    if entries.len() == 0 {
        None
    } else if entries[0] is Some {
        entries[0]
    } else {
        first_email(entries.drop_first())
    }
}

/// The first email address in a list of subject alternative names.
pub fn first_email_of(names: &AltNames) -> (email: Option<String>)
    ensures
        match first_email(name_entries(*names)) {
            Some(e) => email matches Some(s) && s@ == e,
            None => email is None,
        },
{
    let n = name_count(names);
    let ghost entries = name_entries(*names);
    let mut i: usize = 0;
    assert(entries.skip(0) =~= entries);
    while i < n
        invariant
            n == entries.len(),
            entries == name_entries(*names),
            i <= n,
            first_email(entries.skip(i as int)) == first_email(entries),
        decreases n - i,
    {
        assert(entries.skip(i as int).drop_first() =~= entries.skip(i + 1));
        match name_email(names, i) {
            Some(e) => {
                return Some(e);
            },
            None => {},
        }
        i = i + 1;
    }
    None
}

/// The user that DER-encoded bytes identify: the first email address among the subject
/// alternative names of the certificate they hold, if any.
pub open spec fn der_identity(der: Seq<u8>) -> Option<Seq<char>> {
    match der_alt_name_entries(der) {
        Some(entries) => first_email(entries),
        None => None,
    }
}

/// The user that a DER-encoded certificate identifies: the first email address among its
/// subject alternative names. `None` where the bytes hold no certificate, the certificate has
/// no subject alternative names, or none of them is an email address.
pub fn get_username_from_certificate(der_encoded_certificate: &[u8]) -> (identity: Option<
    Identity,
>)
    ensures
        match der_identity(der_encoded_certificate@) {
            Some(e) => identity matches Some(s) && s@ == e,
            None => identity is None,
        },
{
    match alt_names_of_der(der_encoded_certificate) {
        Some(names) => first_email_of(&names),
        None => None,
    }
}

/// The user that a request comes from: the identity in the first of the certificates that the
/// peer presented (DER-encoded), if it presented any.
pub fn get_username_from_request(peer_certs: Option<&[Vec<u8>]>) -> (identity: Option<Identity>)
    ensures
        match peer_certs {
            Some(certs) => if certs@.len() == 0 {
                identity is None
            } else {
                match der_identity(certs@[0]@) {
                    Some(e) => identity matches Some(s) && s@ == e,
                    None => identity is None,
                }
            },
            None => identity is None,
        },
{
    match peer_certs {
        Some(certs) => {
            if certs.len() == 0 {
                None
            } else {
                let first = slice_index_get(certs, 0);
                get_username_from_certificate(first.as_slice())
            }
        },
        None => None,
    }
}

} // verus!

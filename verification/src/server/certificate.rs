//! Whom a certificate names.
use vstd::prelude::*;
use x509_parser::prelude::{FromDer, X509Certificate};

verus! {

/// The common names of the subject of a certificate in DER, in their order, each of them if it is a
/// string that can be read; nothing where the bytes are no certificate.
pub uninterp spec fn common_names(der: Seq<u8>) -> Option<Seq<Option<Seq<char>>>>;

/// Names as mathematical values.
pub open spec fn names_view(names: Seq<Option<String>>) -> Seq<Option<Seq<char>>> {
    Seq::new(
        names.len(),
        |i: int|
            match names[i] {
                Some(name) => Some(name@),
                None => None,
            },
    )
}

/// `X509Certificate::from_der`, `subject`, `iter_common_name` and `as_str` of `x509-parser`: the
/// common names of the subject of a certificate. They depend on its bytes alone.
#[verifier::external_body]
fn parse_common_names(der: &[u8]) -> (names: Option<Vec<Option<String>>>)
    ensures
        match names {
            Some(names) => common_names(der@) == Some(names_view(names@)),
            None => common_names(der@) is None,
        },
{
    let (_, certificate) = X509Certificate::from_der(der).ok()?;
    let names = certificate.subject().iter_common_name();
    Some(names.map(|name| name.as_str().ok().map(|text| text.to_string())).collect())
}

/// Which of the common names counts: the first, if it can be read.
pub open spec fn first_of(names: Option<Seq<Option<Seq<char>>>>) -> Option<Seq<char>> {
    match names {
        Some(names) => if names.len() > 0 {
            names[0]
        } else {
            None
        },
        None => None,
    }
}

/// The name of the subject of a certificate.
pub open spec fn subject_name(der: Seq<u8>) -> Option<Seq<char>> {
    first_of(common_names(der))
}

/// The text of a string that may be missing.
pub open spec fn text_of(text: Option<String>) -> Option<Seq<char>> {
    match text {
        Some(text) => Some(text@),
        None => None,
    }
}

/// The first of the common names of a certificate, if it can be read.
pub fn first_name(names: Option<Vec<Option<String>>>) -> (name: Option<String>)
    ensures
        text_of(name) == first_of(
            match names {
                Some(names) => Some(names_view(names@)),
                None => None,
            },
        ),
{
    match names {
        None => None,
        Some(names) => {
            if names.len() == 0 {
                return None;
            }
            assert(names_view(names@)[0] == text_of(names@[0]));
            match &names[0] {
                Some(name) => Some(name.clone()),
                None => None,
            }
        },
    }
}

/// The name of the subject of a certificate in DER.
pub fn extract_subject_name(cert: &[u8]) -> (name: Option<String>)
    ensures
        text_of(name) == subject_name(cert@),
{
    first_name(parse_common_names(cert))
}

/// The subject of a certificate is named by the first of its common names, where that can be read,
/// and by no other. What is no certificate names none.
pub proof fn first_common_name_counts(der: Seq<u8>, names: Seq<Option<Seq<char>>>)
    ensures
        common_names(der) == Some(names) && names.len() > 0 ==> subject_name(der) == names[0],
        common_names(der) == Some(names) && names.len() == 0 ==> subject_name(der) is None,
        common_names(der) is None ==> subject_name(der) is None,
{
}

/// Names are taken as they are, in their order.
pub proof fn names_are_themselves(names: Seq<Option<String>>, text: Option<String>)
    ensures
        names_view(names).len() == names.len(),
        forall|i: int|
            #![trigger names[i]]
            0 <= i < names.len() ==> match names[i] {
                Some(name) => names_view(names)[i] == Some(name@),
                None => names_view(names)[i] is None,
            },
        text matches Some(name) ==> text_of(text) == Some(name@),
        text is None ==> text_of(text) is None,
{
}

} // verus!

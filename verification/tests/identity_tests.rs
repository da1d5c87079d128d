use library::identity::{get_username_from_certificate, get_username_from_request};
use openssl::asn1::Asn1Time;
use openssl::ec::{EcGroup, EcKey};
use openssl::hash::MessageDigest;
use openssl::nid::Nid;
use openssl::pkey::PKey;
use openssl::x509::extension::SubjectAlternativeName;
use openssl::x509::{X509NameBuilder, X509};

fn certificate(common_name: &str, san: Option<SubjectAlternativeName>) -> X509 {
    let group = EcGroup::from_curve_name(Nid::X9_62_PRIME256V1).unwrap();
    let key = PKey::from_ec_key(EcKey::generate(&group).unwrap()).unwrap();
    let mut name = X509NameBuilder::new().unwrap();
    name.append_entry_by_text("CN", common_name).unwrap();
    let name = name.build();
    let mut builder = X509::builder().unwrap();
    builder.set_version(2).unwrap();
    builder.set_subject_name(&name).unwrap();
    builder.set_issuer_name(&name).unwrap();
    builder.set_pubkey(&key).unwrap();
    builder.set_not_before(&Asn1Time::days_from_now(0).unwrap()).unwrap();
    builder.set_not_after(&Asn1Time::days_from_now(365).unwrap()).unwrap();
    if let Some(mut san) = san {
        let ext = san.build(&builder.x509v3_context(None, None)).unwrap();
        builder.append_extension(ext).unwrap();
    }
    builder.sign(&key, MessageDigest::sha256()).unwrap();
    builder.build()
}

#[test]
fn test_get_username_from_certificate() {
    let mut san = SubjectAlternativeName::new();
    san.email("user1@company.com");
    let x509 = certificate("user1", Some(san));
    let username = get_username_from_certificate(&x509.to_der().unwrap());
    assert_eq!(username, Some("user1@company.com".to_owned()));
}

#[test]
fn first_email_among_names_is_the_identity() {
    let mut san = SubjectAlternativeName::new();
    san.dns("localhost");
    san.email("user2@company.com");
    san.email("other@company.com");
    let x509 = certificate("user2", Some(san));
    let username = get_username_from_certificate(&x509.to_der().unwrap());
    assert_eq!(username, Some("user2@company.com".to_owned()));
}

#[test]
fn certificates_without_email_identify_nobody() {
    let mut san = SubjectAlternativeName::new();
    san.dns("localhost");
    let x509 = certificate("Worker Service", Some(san));
    assert_eq!(get_username_from_certificate(&x509.to_der().unwrap()), None);
    let bare = certificate("nobody", None);
    assert_eq!(get_username_from_certificate(&bare.to_der().unwrap()), None);
    assert_eq!(get_username_from_certificate(b"not a certificate"), None);
}

#[test]
fn request_identity_comes_from_first_peer_certificate() {
    let mut san1 = SubjectAlternativeName::new();
    san1.email("user1@company.com");
    let mut san2 = SubjectAlternativeName::new();
    san2.email("user2@company.com");
    let first = certificate("user1", Some(san1)).to_der().unwrap();
    let second = certificate("user2", Some(san2)).to_der().unwrap();
    let certs = vec![first, second];
    assert_eq!(
        get_username_from_request(Some(&certs)),
        Some("user1@company.com".to_owned())
    );
    assert_eq!(get_username_from_request(Some(&certs[1..])), Some("user2@company.com".to_owned()));
    assert_eq!(get_username_from_request(Some(&[])), None);
    assert_eq!(get_username_from_request(None), None);
}

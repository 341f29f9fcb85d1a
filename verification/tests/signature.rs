//! The operator's signature.

use double_blind::error::{Error, ParseFault};
use double_blind::signature::{read_signature, signature_result};

const SIGNATURE: &str = "\
-----BEGIN SSH SIGNATURE-----\n\
U1NIU0lHAAAAAQAAAhcAAAAHc3NoLXJzYQAAAAMBAAEAAAIBAKuVuni6ywQVEeWkuahx3R\n\
EmoWDgbq+TwMvUaCJMe6x853nn3HhC+nkx4Kx+AyyK1YFbQk57AF6lJO+dS/6HE6CWVNTy\n\
XOWy6YAcunJRnxSeaGa4/3f47R8jdmrYXISzxL5rDlFHMvdIB0xXJmub8N0MyBBnT/M15N\n\
KgAu+IAJRXWhB8RMG/OWnXLxO0g8qbG4ctZ6TpQBwdSFB4d2IVAsbZhmTD/y4x7g/ubvHQ\n\
S87O1hMLU/pFS9M5bugmlVhPtpxbNsC8FIHKSsF9gm5gkt/yxx1h7N0JEOCXjhDPsF693L\n\
KGRGWiMDfW3n+bRX7LT4N291RTwbYxJUzPid5rxKEwJ1V1Nq1Euz47ONyH3HdSvuQsCW+Z\n\
CLQ3hc6/+d1ssDklSubCgEHGS0LN+jr3wPRTBFJnbC9+rY2YYS5gb4QaPLV0xS80uqQCEa\n\
G0ZzRouA9AlEEh+cMIzFe3F43Ez/xP/iFqKj5FgwTJAvMaXzG+3wWy3z1lc+zG0bcMIHUD\n\
JyBx66YqjUQGLCTq95JobmfwUGh1LLVqASVM38tBWkswbOH5b+AazJ73NiBeA6Ue/O3vCf\n\
kwWbIP21tGTK41xXvznO8h8Jn7zd/UinaPy4VNS+56hdQb5199OhRyQl4rdVvNab5kEIyN\n\
IY8IsGAGEH19794H+5OM4to+vUZb0ug5AAAAEGRvdWJsZS1ibGluZC54eXoAAAAAAAAABn\n\
NoYTUxMgAAAhQAAAAMcnNhLXNoYTItNTEyAAACAEUu6dbZwzqZpnJrbI4G1P3zaie6Rw/n\n\
cTz21LAenat+y4OLySzFNQYyjgOw8cHWi5OsCCP/gDHN/SXkGOA6r1dwb4ZN8KLxmIFPpE\n\
SU3l9YrXDBhtBLAr24fEACmKkfhyUKI5txC8ZOQfZ2fRUcu0GGWXWpHIp4PZPgWuZMTmZf\n\
dM9a/3HvlCK081EXMuxi+BimciQJdc+9V2fmph7UzacH6OMt38/0dQ3VetzCfyw/yp8YQm\n\
7ESmw1kGp9G/ieiZf/UX6fc6xKQn8n9pPQMsGh51p+r6tUlsNmGS97Glq4ViqdLyQrirxJ\n\
pM+zWu47mhA6NVrmRrZmw8ceML3ywEjGIgru7v8JbJUF6pmy/um21g4ttNKVv0gIrZU8m7\n\
WaroNCrvfI5aqWToC5xT7AsOp0qlw2+4f3X1pgzLJEmU6032ROvsFTPCta/1aAXteee6+B\n\
o41urhuOvRQp7oVOsdUqlnPUXVIt7Q7RFtxL/lVJgNiWWMobzlC08BDEyTm0W15Qfo/7pW\n\
29QKYaRyGtpydTIf+zqdIPov8fNwBgeKtYIJU3BbGp0K5g4b5rvL8HEVVnB/r8ZsxOytal\n\
QUn1OZx1zjltOu1fMmQrxex6xuco6pEEVwzhF/AsBTFuLrehN+njgptc4zK0IHIMHI0Jxj\n\
siwdRRCKpHUtgzsH3R5F1q\n\
-----END SSH SIGNATURE-----\n";

#[test]
fn a_signature_is_read_from_its_armored_text() {
    let signature = read_signature(SIGNATURE.as_bytes()).unwrap();
    assert_eq!(signature.namespace(), "double-blind.xyz");
    assert!(signature.public_key().is_rsa());
    assert_eq!(signature, ssh_key::SshSig::from_pem(SIGNATURE).unwrap());
}

#[test]
fn what_is_no_signature_is_not_read() {
    assert_eq!(read_signature(b"").err(), Some(Error::KeyParse(ParseFault::Signature)));
    assert_eq!(read_signature(b"-----BEGIN SSH SIGNATURE-----\n").err(), Some(Error::KeyParse(ParseFault::Signature)));
    assert_eq!(
        read_signature(SIGNATURE.replace("SIGNATURE", "PUBLIC KEY").as_bytes()).err(),
        Some(Error::KeyParse(ParseFault::Signature))
    );
    let cut = &SIGNATURE.as_bytes()[..SIGNATURE.len() / 2];
    assert_eq!(read_signature(cut).err(), Some(Error::KeyParse(ParseFault::Signature)));
}

#[test]
fn a_decoded_signature_is_handed_on_as_it_is() {
    let signature = ssh_key::SshSig::from_pem(SIGNATURE).unwrap();
    assert_eq!(signature_result(Some(signature.clone())), Ok(signature));
    assert_eq!(signature_result(None), Err(Error::KeyParse(ParseFault::Signature)));
}

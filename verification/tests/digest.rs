use metoks::digest::text_digest;
use sha2::{Digest, Sha256};

#[test]
fn digests_are_those_published() {
    assert_eq!(text_digest("abc"), "ba7816bf8f01cfea414140de5dae2223b00361a396177a9cb410ff61f20015ad");
    assert_eq!(text_digest(""), "e3b0c44298fc1c149afbf4c8996fb92427ae41e4649b934ca495991b7852b855");
}

#[test]
fn texts_are_digested_in_utf8() {
    let s = "aé€😀|-2";
    assert_eq!(text_digest(s), format!("{:x}", Sha256::digest(s.as_bytes())));
}

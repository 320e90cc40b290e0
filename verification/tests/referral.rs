use chud::referral::{
    activate, claim, claim_reply, claim_request, claim_verdict, hwid_hash, machine_guid,
    maybe_activate, mint, mint_request, Referral, Request,
};

fn fields(r: &Request) -> Vec<(&str, &str)> {
    r.fields.iter().map(|f| (f.0.as_str(), f.1.as_str())).collect()
}

fn utf16(s: &str) -> Vec<u16> {
    s.encode_utf16().collect()
}

fn json(text: &str) -> serde_json::Value {
    serde_json::from_str(text).unwrap()
}

#[test]
fn machine_guid_is_read_without_its_terminator() {
    let mut buffer = utf16("7f3c2a10");
    let size = (buffer.len() * 2 + 2) as u32;
    buffer.resize(128, 0);
    assert_eq!(machine_guid(0, &buffer, size), Some("7f3c2a10".to_string()));
}

#[test]
fn machine_guid_is_trimmed() {
    let mut buffer = utf16(" \tabc \0");
    let size = (buffer.len() * 2) as u32;
    buffer.resize(128, 0);
    assert_eq!(machine_guid(0, &buffer, size), Some("abc".to_string()));
}

#[test]
fn machine_guid_of_a_failed_query_is_none() {
    assert_eq!(machine_guid(2, &utf16("abc"), 8), None);
    assert_eq!(machine_guid(2, &[], 1000), None);
}

#[test]
fn machine_guid_of_an_empty_answer_is_empty() {
    let buffer = [0x41u16; 4];
    for size in 0..4u32 {
        assert_eq!(machine_guid(0, &buffer, size), Some(String::new()));
    }
    assert_eq!(machine_guid(0, &buffer, 4), Some("A".to_string()));
    assert_eq!(machine_guid(0, &buffer, 5), Some("A".to_string()));
}

#[test]
fn hwid_hash_is_the_salted_digest() {
    assert_eq!(
        hwid_hash(Some("7f3c2a10-1111-2222-3333-444455556666")),
        "6cbbf9688bc2c16c546a1b019491f481b13cee71a624e7b29c24ea006e698c85"
    );
    assert_eq!(hwid_hash(Some("")), "9a498ee4ab4ce309886b32d1d4bd94067979bdfc91fc137d40402034aa839548");
    assert_eq!(hwid_hash(Some("é")), "1f943cf29e60599ab1b27dc63ca1234359dc4bb7e2c84d5d27776b94029db6af");
}

#[test]
fn unreadable_machine_hashes_as_unknown() {
    assert_eq!(
        hwid_hash(None),
        "93446b0c7d7eb42c0c332083842303b23168b4009ed22796ac67fa0c57494e07"
    );
    assert_eq!(hwid_hash(None), hwid_hash(Some("unknown-machine")));
}

#[test]
fn mint_posts_the_hash() {
    let r = mint_request("abc");
    assert_eq!(r.url, "https://chud-referral.jivy26.workers.dev/refer/mint");
    assert_eq!(fields(&r), vec![("hwid_hash", "abc")]);
}

#[test]
fn claim_posts_the_code_and_the_hash() {
    let r = claim_request("FRIEND", "abc");
    assert_eq!(r.url, "https://chud-referral.jivy26.workers.dev/refer/claim");
    assert_eq!(fields(&r), vec![("ref_code", "FRIEND"), ("hwid_hash", "abc")]);
}

#[test]
fn only_the_hash_of_the_machine_is_sent() {
    let hash = hwid_hash(Some("7f3c2a10"));
    assert_eq!(hash, "dd5c07270ceb637e41f31edb9836c27269832a1d034498543e1398a819c59476");
    let r = mint(Some("7f3c2a10"));
    assert_eq!(r.url, "https://chud-referral.jivy26.workers.dev/refer/mint");
    assert_eq!(fields(&r), vec![("hwid_hash", hash.as_str())]);
    let r = claim("FRIEND", Some("7f3c2a10"));
    assert_eq!(r.url, "https://chud-referral.jivy26.workers.dev/refer/claim");
    assert_eq!(fields(&r), vec![("ref_code", "FRIEND"), ("hwid_hash", hash.as_str())]);
    assert_eq!(fields(&mint(None)), vec![("hwid_hash", hwid_hash(None).as_str())]);
}

#[test]
fn activate_posts_the_install_code() {
    let r = activate("INSTALL");
    assert_eq!(r.url, "https://chud-referral.jivy26.workers.dev/refer/activate");
    assert_eq!(fields(&r), vec![("install_code", "INSTALL")]);
}

#[test]
fn claim_verdict_follows_the_install_code() {
    assert_eq!(claim_verdict(Some("X"), None), Ok(()));
    assert_eq!(claim_verdict(Some("X"), Some("no")), Ok(()));
    assert_eq!(claim_verdict(None, Some("no")), Err("no".to_string()));
    assert_eq!(claim_verdict(None, None), Err("code not accepted".to_string()));
}

#[test]
fn claim_reply_with_install_code_is_handed_on() {
    let doc = json("{\"install_code\": \"X\", \"more\": [1]}");
    assert_eq!(claim_reply(doc.clone()), Ok(doc));
}

#[test]
fn claim_reply_without_install_code_is_refused() {
    assert_eq!(claim_reply(json("{\"error\": \"used up\"}")), Err("used up".to_string()));
    assert_eq!(claim_reply(json("{\"error\": 3}")), Err("code not accepted".to_string()));
    assert_eq!(claim_reply(json("{\"install_code\": 3}")), Err("code not accepted".to_string()));
    assert_eq!(claim_reply(json("[\"install_code\"]")), Err("code not accepted".to_string()));
    assert_eq!(claim_reply(json("null")), Err("code not accepted".to_string()));
}

#[test]
fn referred_install_reports_once() {
    let mut r = Referral { install_code: "X".to_string(), activated: false };
    let first = maybe_activate(&mut r).unwrap();
    assert_eq!(first.url, "https://chud-referral.jivy26.workers.dev/refer/activate");
    assert_eq!(fields(&first), vec![("install_code", "X")]);
    assert!(r.activated);
    assert_eq!(r.install_code, "X");
    for _ in 0..3 {
        assert!(maybe_activate(&mut r).is_none());
    }
}

#[test]
fn others_report_nothing() {
    let mut r = Referral { install_code: String::new(), activated: false };
    assert!(maybe_activate(&mut r).is_none());
    assert!(!r.activated);
    let mut r = Referral { install_code: "X".to_string(), activated: true };
    assert!(maybe_activate(&mut r).is_none());
    assert!(r.activated);
}

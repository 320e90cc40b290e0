//! The referral programme, which a player has to opt in to.
//!
//! A participant is known to the referral service by a salted hash of the
//! machine's id ([`hwid_hash`]); the id itself is never part of a [`Request`].
//! An install that was referred reports its first use once
//! ([`maybe_activate`]), and nothing is sent for anybody else.
use crate::digest;
use crate::json::{self, Json};
use crate::text;
use vstd::prelude::*;

verus! {

/// Where the referral service lives.
pub const BASE: &'static str = "https://chud-referral.jivy26.workers.dev";

/// Keeps the hash apart from any other hash of the same machine id.
pub const HWID_APP_SALT: &'static str = "chud-referral-hwid-v1";

/// Stands for the id of a machine that has none to read.
pub const UNKNOWN_MACHINE: &'static str = "unknown-machine";

/// What a claim that was refused without a reason is answered.
pub const NOT_ACCEPTED: &'static str = "code not accepted";

/// How many UTF-16 units a registry string of `size` bytes holds, not counting
/// the terminator.
pub open spec fn registry_units(size: u32) -> int {
    if size < 2 {
        0
    } else {
        size / 2 - 1
    }
}

/// Reads the machine's id out of the answer to a registry query: `status` is
/// zero on success, and `size` is the number of bytes that were written to the
/// start of `buffer`, with the terminator.
pub fn machine_guid(status: u32, buffer: &[u16], size: u32) -> (r: Option<String>)
    requires
        status == 0 ==> registry_units(size) <= buffer@.len(),
    ensures
        status != 0 <==> r is None,
        r matches Some(guid) ==> guid@ == text::trimmed(
            text::utf16_text(buffer@.take(registry_units(size))),
        ),
{
    if status != 0 {
        return None;
    }
    let units: usize = (size as usize / 2).saturating_sub(1);
    let id = text::decode_utf16_lossy(vstd::slice::slice_subrange(buffer, 0, units));
    assert(buffer@.subrange(0, units as int) =~= buffer@.take(units as int));
    Some(text::trim(id.as_str()))
}

/// The bytes that are hashed for a machine id: the salt, a bar, the id.
pub open spec fn hwid_message(guid: Option<Seq<char>>) -> Seq<u8> {
    vstd::utf8::encode_utf8(HWID_APP_SALT@) + seq![0x7Cu8] + vstd::utf8::encode_utf8(
        match guid {
            Some(guid) => guid,
            None => UNKNOWN_MACHINE@,
        },
    )
}

/// The name of the machine with the id `guid` at the referral service: the
/// salted hash of the id in lower-case hexadecimal digits.
pub open spec fn hwid_name(guid: Option<Seq<char>>) -> Seq<char> {
    text::hex_lower(digest::sha256_of(hwid_message(guid)))
}

/// Appends `tail` to `bytes`.
fn append_bytes(bytes: &mut Vec<u8>, tail: &[u8])
    ensures
        final(bytes)@ == old(bytes)@ + tail@,
{
    let ghost start = bytes@;
    let mut i: usize = 0;
    while i < tail.len()
        invariant
            i <= tail@.len(),
            bytes@ == start + tail@.take(i as int),
        decreases tail@.len() - i,
    {
        bytes.push(tail[i]);
        i += 1;
        assert(tail@.take(i as int) =~= tail@.take(i - 1).push(tail@[i - 1]));
    }
    assert(tail@.take(i as int) =~= tail@);
}

/// Names the machine with the id `guid` at the referral service.
pub fn hwid_hash(guid: Option<&str>) -> (r: String)
    ensures
        r@ == hwid_name(text::text_behind(guid)),
        r@.len() == 64,
{
    let id = match guid {
        Some(guid) => guid,
        None => UNKNOWN_MACHINE,
    };
    let mut message: Vec<u8> = Vec::new();
    append_bytes(&mut message, HWID_APP_SALT.as_bytes());
    message.push(0x7C);
    append_bytes(&mut message, id.as_bytes());
    assert(message@ =~= hwid_message(text::text_behind(guid)));
    let hash = digest::sha256(message.as_slice());
    text::to_hex_lower(hash.as_slice())
}

/// A request to the referral service.
pub struct Request {
    /// Where it is posted.
    pub url: String,
    /// The names and values of the JSON object that is posted.
    pub fields: Vec<(String, String)>,
}

/// What a [`Request`] holds.
pub struct RequestView {
    pub url: Seq<char>,
    pub fields: Seq<(Seq<char>, Seq<char>)>,
}

impl View for Request {
    type V = RequestView;

    open spec fn view(&self) -> RequestView {
        RequestView {
            url: self.url@,
            fields: self.fields@.map_values(|f: (String, String)| (f.0@, f.1@)),
        }
    }
}

/// The request that posts one field to `path`.
pub open spec fn request_of_one(path: Seq<char>, name: Seq<char>, value: Seq<char>) -> RequestView {
    RequestView { url: BASE@ + path, fields: seq![(name, value)] }
}

/// Builds the request that posts one field to `path`.
fn request(path: &str, name: &str, value: &str) -> (r: Request)
    ensures
        r@ == request_of_one(path@, name@, value@),
{
    let mut url = BASE.to_owned();
    url.append(path);
    let mut fields: Vec<(String, String)> = Vec::new();
    fields.push((name.to_owned(), value.to_owned()));
    let r = Request { url, fields };
    assert(r@.fields =~= seq![(name@, value@)]);
    r
}

/// The request for the referral code of the machine called `hwid_hash`.
pub fn mint_request(hwid_hash: &str) -> (r: Request)
    ensures
        r@ == request_of_one("/refer/mint"@, "hwid_hash"@, hwid_hash@),
{
    request("/refer/mint", "hwid_hash", hwid_hash)
}

/// The request that claims a friend's referral code for the machine called
/// `hwid_hash`.
pub open spec fn claim_of(ref_code: Seq<char>, hwid_hash: Seq<char>) -> RequestView {
    RequestView {
        url: BASE@ + "/refer/claim"@,
        fields: seq![("ref_code"@, ref_code), ("hwid_hash"@, hwid_hash)],
    }
}

/// Builds the request that claims a friend's referral code for the machine
/// called `hwid_hash`.
pub fn claim_request(ref_code: &str, hwid_hash: &str) -> (r: Request)
    ensures
        r@ == claim_of(ref_code@, hwid_hash@),
{
    let mut r = request("/refer/claim", "ref_code", ref_code);
    let ghost one = r.fields@;
    r.fields.push(("hwid_hash".to_owned(), hwid_hash.to_owned()));
    proof {
        let shown = one.map_values(|f: (String, String)| (f.0@, f.1@));
        assert(shown == seq![("ref_code"@, ref_code@)]);
        assert(shown[0] == (one[0].0@, one[0].1@));
        assert(r@.fields =~= seq![("ref_code"@, ref_code@), ("hwid_hash"@, hwid_hash@)]);
    }
    r
}

/// The request for this machine's referral code, a new one or the one it has.
/// Of the machine's id it holds the salted hash alone.
pub fn mint(guid: Option<&str>) -> (r: Request)
    ensures
        r@ == request_of_one("/refer/mint"@, "hwid_hash"@, hwid_name(text::text_behind(guid))),
{
    let hwid = hwid_hash(guid);
    mint_request(hwid.as_str())
}

/// The request that claims a friend's referral code for this machine. Of the
/// machine's id it holds the salted hash alone.
pub fn claim(ref_code: &str, guid: Option<&str>) -> (r: Request)
    ensures
        r@ == claim_of(ref_code@, hwid_name(text::text_behind(guid))),
{
    let hwid = hwid_hash(guid);
    claim_request(ref_code, hwid.as_str())
}

/// The request that reports the first use of a referred install.
pub fn activate(install_code: &str) -> (r: Request)
    ensures
        r@ == request_of_one("/refer/activate"@, "install_code"@, install_code@),
{
    request("/refer/activate", "install_code", install_code)
}

/// The string under `key` in the object `doc`, if there is one.
pub open spec fn text_member(doc: Json, key: Seq<char>) -> Option<Seq<char>> {
    match doc.member(key) {
        Some(v) => v.text(),
        None => None,
    }
}

/// The reason that a refused claim is answered with.
pub open spec fn refusal(error: Option<Seq<char>>) -> Seq<char> {
    match error {
        Some(reason) => reason,
        None => NOT_ACCEPTED@,
    }
}

/// Decides a claim from what the service answered: it is accepted where the
/// answer has an install code, and refused otherwise with the service's reason,
/// or a general one where the service gave none.
pub fn claim_verdict(install_code: Option<&str>, error: Option<&str>) -> (r: Result<(), String>)
    ensures
        r is Ok <==> install_code is Some,
        r matches Err(reason) ==> reason@ == refusal(text::text_behind(error)),
{
    match install_code {
        Some(_) => Ok(()),
        None => match error {
            Some(reason) => Err(reason.to_owned()),
            None => Err(NOT_ACCEPTED.to_owned()),
        },
    }
}

/// The string under `key` in the object `doc`, if there is one.
fn read_text_member<'a>(doc: &'a serde_json::Value, key: &str) -> (r: Option<&'a str>)
    ensures
        text::text_behind(r) == text_member(json::json_of(*doc), key@),
{
    match json::member(doc, key) {
        Some(v) => json::as_text(v),
        None => None,
    }
}

/// Decides a claim from the document that the service answered with, and hands
/// the document on where the claim is accepted.
pub fn claim_reply(reply: serde_json::Value) -> (r: Result<serde_json::Value, String>)
    ensures
        r is Ok <==> text_member(json::json_of(reply), "install_code"@) is Some,
        r matches Ok(doc) ==> doc == reply,
        r matches Err(reason) ==> reason@ == refusal(
            text_member(json::json_of(reply), "error"@),
        ),
{
    let verdict = claim_verdict(
        read_text_member(&reply, "install_code"),
        read_text_member(&reply, "error"),
    );
    match verdict {
        Ok(()) => Ok(reply),
        Err(reason) => Err(reason),
    }
}

/// What this install knows of the referral programme.
pub struct Referral {
    /// The code it got by claiming a friend's; empty where it claimed none.
    pub install_code: String,
    /// Its first use has been reported.
    pub activated: bool,
}

/// Whether the first use of an install is still to be reported: it was
/// referred, and nothing was reported yet.
pub open spec fn wants_activation(install_code: Seq<char>, activated: bool) -> bool {
    install_code.len() > 0 && !activated
}

/// Called after a skin was injected: returns the report of the first use, if it
/// is due, and notes that it was made. The caller saves the settings where a
/// report is returned.
pub fn maybe_activate(referral: &mut Referral) -> (r: Option<Request>)
    ensures
        r is Some <==> wants_activation(old(referral).install_code@, old(referral).activated),
        r matches Some(request) ==> request@ == request_of_one(
            "/refer/activate"@,
            "install_code"@,
            old(referral).install_code@,
        ),
        final(referral).install_code == old(referral).install_code,
        final(referral).activated == (old(referral).activated || r is Some),
{
    if referral.install_code.as_str().is_empty() || referral.activated {
        return None;
    }
    let request = activate(referral.install_code.as_str());
    referral.activated = true;
    Some(request)
}

/// How many reports `calls` calls of [`maybe_activate`] make.
pub open spec fn reports(install_code: Seq<char>, activated: bool, calls: nat) -> nat
    decreases calls,
{
    if calls == 0 {
        0
    } else {
        let due = wants_activation(install_code, activated);
        (if due {
            1nat
        } else {
            0nat
        }) + reports(install_code, activated || due, (calls - 1) as nat)
    }
}

/// The first use is reported once: however often skins are injected, a referred
/// install that has not reported yet makes exactly one report, and any other
/// install makes none.
pub proof fn first_use_is_reported_once(install_code: Seq<char>, activated: bool, calls: nat)
    requires
        calls > 0,
    ensures
        reports(install_code, activated, calls) == (if wants_activation(install_code, activated) {
            1nat
        } else {
            0nat
        }),
    decreases calls,
{
    reveal_with_fuel(reports, 2);
    let due = wants_activation(install_code, activated);
    if calls > 1 {
        first_use_is_reported_once(install_code, activated || due, (calls - 1) as nat);
    }
}

/// Nothing is ever sent for a player who takes no part: without an install code
/// no call makes a report.
pub proof fn no_report_without_install_code(activated: bool, calls: nat)
    ensures
        reports(Seq::empty(), activated, calls) == 0,
    decreases calls,
{
    if calls > 0 {
        no_report_without_install_code(activated, (calls - 1) as nat);
    }
}

/// A registry string of `n` units is written with a terminator of one unit, two
/// bytes each; a byte left over does not count, and neither does an answer too
/// short for the terminator.
pub proof fn terminator_does_not_count(n: u32)
    requires
        n <= 0x7FFF_FFFE,
    ensures
        registry_units((2 * n + 2) as u32) == n,
        registry_units((2 * n + 3) as u32) == n,
        registry_units(0) == 0,
        registry_units(1) == 0,
{
}

/// What is hashed of a machine is the salt, a bar and the whole id, so that
/// machines with different ids are hashed differently; a machine without an id
/// is hashed as `unknown-machine`.
pub proof fn whole_id_is_hashed_with_the_salt(a: Seq<char>, b: Seq<char>)
    ensures
        hwid_message(Some(a)).len() == 22 + vstd::utf8::encode_utf8(a).len(),
        hwid_message(Some(a)).take(21) == vstd::utf8::encode_utf8("chud-referral-hwid-v1"@),
        hwid_message(Some(a))[21] == '|' as u8,
        vstd::utf8::decode_utf8(hwid_message(Some(a)).skip(22)) == a,
        hwid_message(Some(a)) == hwid_message(Some(b)) ==> a == b,
        hwid_message(None) == hwid_message(Some("unknown-machine"@)),
{
    let salt = "chud-referral-hwid-v1"@;
    let bytes = vstd::utf8::encode_utf8(salt);
    reveal_strlit("chud-referral-hwid-v1");
    assert(vstd::utf8::is_ascii_chars(salt));
    vstd::utf8::is_ascii_chars_encode_utf8(salt);
    assert(bytes.len() == 21);
    vstd::utf8::encode_utf8_decode_utf8(a);
    vstd::utf8::encode_utf8_decode_utf8(b);
    assert(hwid_message(Some(a)).take(21) =~= bytes);
    assert(hwid_message(Some(a)).skip(22) =~= vstd::utf8::encode_utf8(a));
    assert(hwid_message(Some(b)).skip(22) =~= vstd::utf8::encode_utf8(b));
}

/// The name of a machine is its hash, two lower-case hexadecimal digits for each
/// byte: nothing else goes into it, and nothing of the hash is left out.
pub proof fn machine_is_named_by_its_hash(guid: Option<Seq<char>>, i: int)
    requires
        0 <= i < digest::sha256_of(hwid_message(guid)).len(),
    ensures
        ({
            let hash = digest::sha256_of(hwid_message(guid));
            let name = hwid_name(guid);
            &&& name.len() == 2 * hash.len()
            &&& text::hex_value(name[2 * i]) matches Some(high)
            &&& text::hex_value(name[2 * i + 1]) matches Some(low)
            &&& 16 * high + low == hash[i]
        }),
{
    text::hex_digits_give_the_bytes_back(digest::sha256_of(hwid_message(guid)), i);
}

/// A request goes to the referral service and holds what it is made of, as it is
/// and nothing else: one field, or the friend's code and the machine's name.
pub proof fn requests_hold_what_they_are_made_of(
    path: Seq<char>,
    name: Seq<char>,
    value: Seq<char>,
    ref_code: Seq<char>,
    hwid_hash: Seq<char>,
)
    ensures
        request_of_one(path, name, value).url == "https://chud-referral.jivy26.workers.dev"@ + path,
        request_of_one(path, name, value).fields.len() == 1,
        request_of_one(path, name, value).fields[0] == (name, value),
        claim_of(ref_code, hwid_hash).url == "https://chud-referral.jivy26.workers.dev"@
            + "/refer/claim"@,
        claim_of(ref_code, hwid_hash).fields.len() == 2,
        claim_of(ref_code, hwid_hash).fields[0] == ("ref_code"@, ref_code),
        claim_of(ref_code, hwid_hash).fields[1] == ("hwid_hash"@, hwid_hash),
{
}

/// The service's answer is read as it is: a member that is a string is that
/// string, and there is none where the answer is no object, lacks the member or
/// holds something else under it. A refusal is passed on word for word, and one
/// without a reason is given a general one.
pub proof fn answers_are_read_as_they_are(
    members: Map<Seq<char>, Json>,
    key: Seq<char>,
    reason: Seq<char>,
    other: Json,
)
    ensures
        members.dom().contains(key) && members[key] == Json::Text(reason) ==> text_member(
            Json::Object(members),
            key,
        ) == Some(reason),
        !(members.dom().contains(key) && members[key] is Text) ==> text_member(
            Json::Object(members),
            key,
        ) is None,
        !(other is Object) ==> text_member(other, key) is None,
        refusal(Some(reason)) == reason,
        refusal(None) == "code not accepted"@,
{
}

/// Every install with a code that has not reported its first use reports it,
/// whatever the code, and exactly once; one that has reported makes no further
/// report.
pub proof fn referred_install_reports_once(install_code: Seq<char>, calls: nat)
    requires
        install_code.len() > 0,
        calls > 0,
    ensures
        wants_activation(install_code, false),
        reports(install_code, false, calls) == 1,
        reports(install_code, true, calls) == 0,
{
    first_use_is_reported_once(install_code, false, calls);
    first_use_is_reported_once(install_code, true, calls);
}

/// A request is shown as it is: its address, and its fields in order.
pub proof fn requests_are_shown_as_they_are(request: Request, i: int)
    requires
        0 <= i < request.fields@.len(),
    ensures
        request@.url == request.url@,
        request@.fields.len() == request.fields@.len(),
        request@.fields[i] == (request.fields@[i].0@, request.fields@[i].1@),
{
}

} // verus!

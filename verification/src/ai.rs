//! Credential handling and reply shaping for the MiniMax assistant.
//!
//! The credential store and the HTTP exchange are done by the caller; this
//! module decides what is stored, what is sent and what the user is told.
use vstd::prelude::*;
use vstd::utf8::encode_utf8;
use crate::text::{ascii_lower, chars_of, is_whitespace, is_ws, lower, lower_seq, str_eq, trim_both, trim_range, TrimSet};
use crate::types::{AiStatus, LocalDiagnosis};

verus! {

broadcast use vstd::string::group_string_axioms;

/// Whether `m` names one of the supported models.
pub open spec fn is_allowed_model(m: Seq<char>) -> bool {
    ||| m == "MiniMax-M2.7"@
    ||| m == "MiniMax-M2.7-highspeed"@
    ||| m == "MiniMax-M2.5"@
    ||| m == "MiniMax-M2.5-highspeed"@
}

/// Accepts only the supported models.
pub fn validate_model(model: &str) -> (r: Result<(), String>)
    ensures
        r is Ok <==> is_allowed_model(model@),
        r matches Err(e) ==> e@ == "不支持的 MiniMax 模型"@,
{
    if str_eq(model, "MiniMax-M2.7") || str_eq(model, "MiniMax-M2.7-highspeed") || str_eq(
        model,
        "MiniMax-M2.5",
    ) || str_eq(model, "MiniMax-M2.5-highspeed") {
        Ok(())
    } else {
        Err(String::from_str("不支持的 MiniMax 模型"))
    }
}

/// The length in bytes of the UTF-8 encoding of `k`, as `str::len` reports it.
pub open spec fn byte_len(k: Seq<char>) -> usize {
    encode_utf8(k).len() as usize
}

/// Whether a key's UTF-8 length lies in the accepted range.
pub open spec fn key_length_ok(k: Seq<char>) -> bool {
    16 <= byte_len(k) <= 2500
}

/// Accepts keys of 16 to 2500 bytes.
pub fn validate_api_key(key: &str) -> (r: Result<(), String>)
    ensures
        r is Ok <==> key_length_ok(key@),
        r matches Err(e) ==> e@ == "MiniMax API Key 格式不正确"@,
{
    let n = key.len();
    if n < 16 || n > 2500 {
        Err(String::from_str("MiniMax API Key 格式不正确"))
    } else {
        Ok(())
    }
}

/// The prefix that pasted keys often carry.
pub open spec fn bearer_pattern() -> Seq<char> {
    seq!['b', 'e', 'a', 'r', 'e', 'r', ' ']
}

/// Whether `s` starts with "bearer " in any ASCII case.
pub open spec fn bearer_prefixed(s: Seq<char>) -> bool {
    s.len() >= 7 && lower_seq(s.take(7)) == bearer_pattern()
}

/// The key that remains once surrounding space, quotes and a bearer prefix are removed.
pub open spec fn normalized_key(s: Seq<char>) -> Seq<char> {
    let k = trim_both(trim_both(trim_both(s, TrimSet::Whitespace), TrimSet::Quotes), TrimSet::Whitespace);
    if bearer_prefixed(k) {
        trim_both(k.skip(7), TrimSet::Whitespace)
    } else {
        k
    }
}

/// Whether `s` holds a white-space character.
pub open spec fn has_ws(s: Seq<char>) -> bool {
    exists|i: int| 0 <= i < s.len() && is_ws(#[trigger] s[i])
}

/// Whether a pasted value yields an acceptable key.
pub open spec fn key_accepted(s: Seq<char>) -> bool {
    key_length_ok(normalized_key(s)) && !has_ws(normalized_key(s))
}

fn starts_with_bearer(v: &Vec<char>, lo: usize, hi: usize) -> (r: bool)
    requires
        lo <= hi <= v.len(),
    ensures
        r == bearer_prefixed(v@.subrange(lo as int, hi as int)),
{
    if hi - lo < 7 {
        return false;
    }
    let pattern = ['b', 'e', 'a', 'r', 'e', 'r', ' '];
    assert(pattern@ == bearer_pattern());
    let ghost k = v@.subrange(lo as int, hi as int);
    let mut i: usize = 0;
    while i < 7
        invariant
            lo + 7 <= hi <= v.len(),
            k == v@.subrange(lo as int, hi as int),
            pattern@ == bearer_pattern(),
            i <= 7,
            forall|j: int| 0 <= j < i ==> lower(k[j]) == bearer_pattern()[j],
        decreases 7 - i,
    {
        if ascii_lower(v[lo + i]) != pattern[i] {
            assert(lower_seq(k.take(7))[i as int] != bearer_pattern()[i as int]);
            return false;
        }
        i = i + 1;
    }
    assert(lower_seq(k.take(7)) =~= bearer_pattern());
    true
}

proof fn lemma_trim_front_stops(s: Seq<char>, set: TrimSet)
    requires
        s.len() > 0,
        !crate::text::trims(set, s[0]),
    ensures
        crate::text::trim_front(s, set) == s,
{
}

proof fn lemma_trim_back_stops(s: Seq<char>, set: TrimSet)
    requires
        s.len() > 0,
        !crate::text::trims(set, s.last()),
    ensures
        crate::text::trim_back(s, set) == s,
{
}

proof fn lemma_untrimmed(s: Seq<char>, set: TrimSet)
    requires
        s.len() > 0,
        !crate::text::trims(set, s[0]),
        !crate::text::trims(set, s.last()),
    ensures
        trim_both(s, set) == s,
{
    lemma_trim_front_stops(s, set);
    lemma_trim_back_stops(s, set);
}

/// Whether `k` can stand as a key on its own: 16 to 2500 bytes, no white
/// space, and no quote at either end.
pub open spec fn plain_key(k: Seq<char>) -> bool {
    &&& key_length_ok(k)
    &&& !has_ws(k)
    &&& k.len() > 0 ==> (k[0] != '"' && k[0] != '\'' && k.last() != '"' && k.last() != '\'')
}

/// A key pasted as it is, after "Bearer ", or quoted with a lower-case
/// "bearer " prefix and surrounding spaces, is accepted and comes out as the
/// key itself.
pub proof fn law_pasted_key_forms_normalize(k: Seq<char>)
    requires
        plain_key(k),
    ensures
        key_accepted(k) && normalized_key(k) == k,
        key_accepted(seq!['B', 'e', 'a', 'r', 'e', 'r', ' '] + k) && normalized_key(
            seq!['B', 'e', 'a', 'r', 'e', 'r', ' '] + k,
        ) == k,
        key_accepted(
            seq![' ', ' ', '"', 'b', 'e', 'a', 'r', 'e', 'r', ' '] + k + seq!['"', ' '],
        ) && normalized_key(
            seq![' ', ' ', '"', 'b', 'e', 'a', 'r', 'e', 'r', ' '] + k + seq!['"', ' '],
        ) == k,
{
    assert(k.len() > 0) by {
        if k.len() == 0 {
            assert(encode_utf8(k) =~= Seq::<u8>::empty());
        }
    }
    let ws = TrimSet::Whitespace;
    let qs = TrimSet::Quotes;
    assert(!is_ws(k[0]));
    assert(!is_ws(k.last()));
    // The key alone.
    lemma_untrimmed(k, ws);
    lemma_untrimmed(k, qs);
    assert(!bearer_prefixed(k)) by {
        if k.len() >= 7 {
            assert(!is_ws(k[6]));
            assert(lower_seq(k.take(7))[6] == lower(k[6]));
        }
    }
    // After "Bearer ".
    let b = seq!['B', 'e', 'a', 'r', 'e', 'r', ' '] + k;
    assert(b.last() == k.last());
    lemma_untrimmed(b, ws);
    lemma_untrimmed(b, qs);
    assert(lower_seq(b.take(7)) =~= bearer_pattern());
    assert(b.skip(7) =~= k);
    // Quoted, with surrounding spaces and a lower-case prefix.
    let q = seq![' ', ' ', '"', 'b', 'e', 'a', 'r', 'e', 'r', ' '] + k + seq!['"', ' '];
    let q1 = q.drop_first();
    let q2 = q1.drop_first();
    assert(q[0] == ' ' && q1[0] == ' ' && q2[0] == '"');
    assert(crate::text::trim_front(q, ws) == q2) by {
        lemma_trim_front_stops(q2, ws);
        assert(crate::text::trim_front(q1, ws) == crate::text::trim_front(q2, ws));
        assert(crate::text::trim_front(q, ws) == crate::text::trim_front(q1, ws));
    }
    let q3 = q2.drop_last();
    assert(q2.last() == ' ' && q3.last() == '"');
    assert(crate::text::trim_back(q2, ws) == q3) by {
        lemma_trim_back_stops(q3, ws);
    }
    let q4 = q3.drop_first();
    let q5 = q4.drop_last();
    let c = seq!['b', 'e', 'a', 'r', 'e', 'r', ' '] + k;
    assert(q5 =~= c);
    assert(c.last() == k.last());
    assert(crate::text::trim_front(q3, qs) == q4) by {
        lemma_trim_front_stops(q4, qs);
    }
    assert(q4.last() == '"');
    assert(crate::text::trim_back(q4, qs) == c) by {
        lemma_trim_back_stops(c, qs);
    }
    lemma_untrimmed(c, ws);
    assert(lower_seq(c.take(7)) =~= bearer_pattern());
    assert(c.skip(7) =~= k);
}

/// Cleans up a pasted key: strips white space and quotes around it and a
/// leading "Bearer ", then requires 16 to 2500 bytes and no white space.
pub fn normalize_api_key(value: &str) -> (r: Result<String, String>)
    ensures
        r is Ok <==> key_accepted(value@),
        r matches Ok(k) ==> k@ == normalized_key(value@),
        r matches Err(e) ==> e@ == (if !key_length_ok(normalized_key(value@)) {
            "MiniMax API Key 格式不正确"@
        } else {
            "API Key 中包含空格或换行，请只粘贴密钥本身"@
        }),
{
    let v = chars_of(value);
    assert(v@.subrange(0, v.len() as int) =~= v@);
    let (a, b) = trim_range(&v, 0, v.len(), TrimSet::Whitespace);
    let (a, b) = trim_range(&v, a, b, TrimSet::Quotes);
    let (a, b) = trim_range(&v, a, b, TrimSet::Whitespace);
    let ghost k = v@.subrange(a as int, b as int);
    let mut lo = a;
    let mut hi = b;
    if starts_with_bearer(&v, a, b) {
        assert(k.skip(7) =~= v@.subrange(a + 7, b as int));
        let (c, d) = trim_range(&v, a + 7, b, TrimSet::Whitespace);
        lo = c;
        hi = d;
    }
    assert(v@.subrange(lo as int, hi as int) == normalized_key(value@));
    let key = value.substring_char(lo, hi);
    validate_api_key(key)?;
    let mut i = lo;
    while i < hi
        invariant
            lo <= i <= hi <= v.len(),
            v@.subrange(lo as int, hi as int) == normalized_key(value@),
            key_length_ok(normalized_key(value@)),
            forall|j: int| lo <= j < i ==> !is_ws(v@[j]),
        decreases hi - i,
    {
        if is_whitespace(v[i]) {
            let ghost nk = normalized_key(value@);
            assert(nk[i - lo] == v@[i as int]);
            assert(is_ws(nk[i - lo]));
            assert(has_ws(nk));
            return Err(String::from_str("API Key 中包含空格或换行，请只粘贴密钥本身"));
        }
        i = i + 1;
    }
    assert(!has_ws(v@.subrange(lo as int, hi as int))) by {
        assert forall|j: int| 0 <= j < hi - lo implies !is_ws(
            #[trigger] v@.subrange(lo as int, hi as int)[j],
        ) by {
            assert(v@.subrange(lo as int, hi as int)[j] == v@[lo + j]);
        }
    }
    Ok(key.to_owned())
}

} // verus!

verus! {

/// Name under which the key is kept in the platform credential store.
pub open spec fn credential_target_name() -> Seq<char> {
    "DahuangDog/MiniMaxApiKey"@
}

/// User name recorded next to the stored key.
pub open spec fn credential_user_name() -> Seq<char> {
    "MiniMax API"@
}

/// What is written to the platform credential store for a key.
pub struct CredentialRecord {
    /// The target name, UTF-16 and zero-terminated.
    pub target: Vec<u16>,
    /// The user name, UTF-16 and zero-terminated.
    pub user_name: Vec<u16>,
    /// The key's UTF-8 bytes.
    pub secret: Vec<u8>,
}

/// What the platform credential store held when it was read.
pub enum StoredCredential {
    /// The platform has no credential store that this library can use.
    Unsupported,
    /// Nothing is stored under the target name.
    Missing,
    /// Something is stored, but its bytes are not UTF-8.
    Corrupted,
    /// The stored key.
    Present(String),
}

/// The target name, UTF-16 and zero-terminated, for reading or deleting the key.
pub fn credential_target() -> (r: Vec<u16>)
    ensures
        r@ == crate::text::utf16(credential_target_name()).push(0),
{
    crate::text::wide("DahuangDog/MiniMaxApiKey")
}

/// The error reported where the platform has no credential store.
pub fn platform_unsupported() -> (r: String)
    ensures
        r@ == "MiniMax 凭据管理仅支持 Windows"@,
{
    String::from_str("MiniMax 凭据管理仅支持 Windows")
}

/// Prepares a pasted key for storage: the normalised key, as UTF-8 bytes,
/// under the library's target and user names. `stored` is what the
/// credential store holds now; where the platform has none, every key is
/// refused with the platform error and nothing is prepared.
pub fn save_api_key(stored: &StoredCredential, api_key: &str) -> (r: Result<CredentialRecord, String>)
    ensures
        *stored is Unsupported ==> (r matches Err(e) && e@ == "MiniMax 凭据管理仅支持 Windows"@),
        !(*stored is Unsupported) ==> {
            &&& r is Ok <==> key_accepted(api_key@)
            &&& r matches Ok(rec) ==> {
                &&& rec.secret@ == encode_utf8(normalized_key(api_key@))
                &&& rec.target@ == crate::text::utf16(credential_target_name()).push(0)
                &&& rec.user_name@ == crate::text::utf16(credential_user_name()).push(0)
            }
            &&& r matches Err(e) ==> e@ == (if !key_length_ok(normalized_key(api_key@)) {
                "MiniMax API Key 格式不正确"@
            } else {
                "API Key 中包含空格或换行，请只粘贴密钥本身"@
            })
        },
{
    if let StoredCredential::Unsupported = stored {
        return Err(platform_unsupported());
    }
    let key = normalize_api_key(api_key)?;
    let n = key.as_str().len();
    if n < 16 || n > 2500 {
        return Err(String::from_str("MiniMax API Key 格式不正确"));
    }
    let secret = key.as_str().as_bytes_vec();
    Ok(CredentialRecord {
        target: crate::text::wide("DahuangDog/MiniMaxApiKey"),
        user_name: crate::text::wide("MiniMax API"),
        secret,
    })
}

/// The outcome of writing a prepared key to the credential store.
pub fn credential_saved(written: bool) -> (r: Result<AiStatus, String>)
    ensures
        written ==> r == Ok::<AiStatus, String>(AiStatus { configured: true }),
        !written ==> (r matches Err(e) && e@ == "无法将 API Key 保存到 Windows 凭据管理器"@),
{
    if written {
        Ok(AiStatus { configured: true })
    } else {
        Err(String::from_str("无法将 API Key 保存到 Windows 凭据管理器"))
    }
}

/// Whether a read of the credential store found a usable key.
pub open spec fn credential_usable(stored: StoredCredential) -> bool {
    stored is Present
}

/// The stored key, or why there is none.
pub fn read_api_key(stored: &StoredCredential) -> (r: Result<String, String>)
    ensures
        match *stored {
            StoredCredential::Present(k) => r == Ok::<String, String>(k),
            StoredCredential::Unsupported => r matches Err(e) && e@
                == "MiniMax 凭据管理仅支持 Windows"@,
            StoredCredential::Missing => r matches Err(e) && e@ == "尚未配置 MiniMax API Key"@,
            StoredCredential::Corrupted => r matches Err(e) && e@
                == "Windows 凭据中的 API Key 已损坏"@,
        },
{
    match stored {
        StoredCredential::Present(k) => Ok(k.clone()),
        StoredCredential::Unsupported => Err(platform_unsupported()),
        StoredCredential::Missing => Err(String::from_str("尚未配置 MiniMax API Key")),
        StoredCredential::Corrupted => Err(String::from_str("Windows 凭据中的 API Key 已损坏")),
    }
}

/// Whether a usable key is stored.
pub fn has_api_key(stored: &StoredCredential) -> (r: bool)
    ensures
        r == credential_usable(*stored),
{
    read_api_key(stored).is_ok()
}

/// The configuration status shown to the user.
pub fn status(stored: &StoredCredential) -> (r: AiStatus)
    ensures
        r.configured == credential_usable(*stored),
{
    AiStatus { configured: has_api_key(stored) }
}

/// The outcome of deleting the stored key, given whether the store reported
/// the delete done and what it holds afterwards: the platform error where
/// there is no credential store; otherwise a failed delete is an error only
/// while a usable key is still stored.
pub fn clear_api_key(deleted: bool, after: &StoredCredential) -> (r: Result<AiStatus, String>)
    ensures
        *after is Unsupported ==> (r matches Err(e) && e@ == "MiniMax 凭据管理仅支持 Windows"@),
        (!deleted && credential_usable(*after)) ==> (r matches Err(e) && e@
            == "无法从 Windows 凭据管理器删除 API Key"@),
        !(*after is Unsupported) && !(!deleted && credential_usable(*after)) ==> r == Ok::<
            AiStatus,
            String,
        >(AiStatus { configured: false }),
{
    if let StoredCredential::Unsupported = after {
        return Err(platform_unsupported());
    }
    if !deleted && has_api_key(after) {
        return Err(String::from_str("无法从 Windows 凭据管理器删除 API Key"));
    }
    Ok(AiStatus { configured: false })
}

/// The key a connection test uses: one typed in (once trimmed and if not
/// empty) wins over the stored one.
pub open spec fn supplied_key(api_key: Option<String>) -> Option<Seq<char>> {
    match api_key {
        Some(k) => if trim_both(k@, TrimSet::Whitespace).len() > 0 {
            Some(trim_both(k@, TrimSet::Whitespace))
        } else {
            None
        },
        None => None,
    }
}

/// Picks and checks the key for a connection test.
pub fn connection_key(model: &str, api_key: Option<String>, stored: &StoredCredential) -> (r:
    Result<String, String>)
    ensures
        !is_allowed_model(model@) ==> (r matches Err(e) && e@ == "不支持的 MiniMax 模型"@),
        is_allowed_model(model@) ==> match supplied_key(api_key) {
            Some(k) => (r is Ok <==> key_accepted(k)) && (r matches Ok(out) ==> out@
                == normalized_key(k)),
            None => match *stored {
                StoredCredential::Present(k) => (r is Ok <==> key_accepted(k@)) && (r matches Ok(
                    out,
                ) ==> out@ == normalized_key(k@)),
                _ => r is Err,
            },
        },
{
    validate_model(model)?;
    let supplied = match api_key {
        Some(value) => {
            let t = crate::text::trim_ws(value.as_str());
            if t.as_str().unicode_len() > 0 {
                Some(t)
            } else {
                None
            }
        },
        None => None,
    };
    let key = match supplied {
        Some(value) => value,
        None => read_api_key(stored)?,
    };
    normalize_api_key(key.as_str())
}

/// The fields of an HTTP reply from the assistant service that the library reads.
pub struct ServiceReply {
    /// The numeric status code.
    pub code: u16,
    /// Whether the status is a success.
    pub success: bool,
    /// The status as shown to the user, such as "401 Unauthorized".
    pub status_text: String,
    /// The JSON body's fields; `None` where the body was not JSON.
    pub body: Option<ReplyBody>,
}

/// String fields of a JSON reply body, each `None` where absent or not a string.
pub struct ReplyBody {
    /// `/base_resp/status_msg`.
    pub base_message: Option<String>,
    /// `/error/message`.
    pub error_message: Option<String>,
    /// `/choices/0/message/content`.
    pub content: Option<String>,
}

/// The message a failed reply carries.
pub open spec fn failure_message(body: ReplyBody) -> Seq<char> {
    match body.base_message {
        Some(m) => m@,
        None => match body.error_message {
            Some(m) => m@,
            None => "请求失败"@,
        },
    }
}

fn failure_text(body: &ReplyBody) -> (r: String)
    ensures
        r@ == failure_message(*body),
{
    match &body.base_message {
        Some(m) => m.clone(),
        None => match &body.error_message {
            Some(m) => m.clone(),
            None => String::from_str("请求失败"),
        },
    }
}

/// The message shown when the service does not accept the key.
pub open spec fn key_rejected_message() -> Seq<char> {
    "MiniMax 未识别 API Key。请只粘贴密钥本身（不要包含 Bearer 或引号），并确认它来自国内开放平台 platform.minimaxi.com 的接口密钥页面。"@
}

/// Whether a failed reply says that the key was not recognised.
pub open spec fn key_rejected(code: u16, message: Seq<char>) -> bool {
    code == 401 && (crate::text::seq_contains(message, "Authorization"@)
        || crate::text::seq_contains(message, "1004"@))
}

/// What a connection test reports, given the service's reply.
pub fn connection_result(model: &str, reply: &ServiceReply) -> (r: Result<String, String>)
    ensures
        match reply.body {
            None => r matches Err(e) && e@ == "MiniMax 返回了无法解析的响应（HTTP "@
                + reply.status_text@ + "）"@,
            Some(body) => if !reply.success {
                if key_rejected(reply.code, failure_message(body)) {
                    r matches Err(e) && e@ == key_rejected_message()
                } else {
                    r matches Err(e) && e@ == "MiniMax 请求失败（HTTP "@ + reply.status_text@
                        + "）："@ + failure_message(body)
                }
            } else {
                r matches Ok(s) && s@ == "连接成功 · "@ + model@ + " · "@ + crate::text::take_chars(
                    trim_both(
                        match body.content {
                            Some(c) => c@,
                            None => "连接成功"@,
                        },
                        TrimSet::Whitespace,
                    ),
                    40,
                )
            },
        },
{
    let body = match &reply.body {
        None => {
            return Err(
                crate::text::join3(
                    "MiniMax 返回了无法解析的响应（HTTP ",
                    reply.status_text.as_str(),
                    "）",
                ),
            );
        },
        Some(b) => b,
    };
    if !reply.success {
        let message = failure_text(body);
        if reply.code == 401 && (crate::text::str_contains(message.as_str(), "Authorization")
            || crate::text::str_contains(message.as_str(), "1004")) {
            return Err(
                String::from_str(
                    "MiniMax 未识别 API Key。请只粘贴密钥本身（不要包含 Bearer 或引号），并确认它来自国内开放平台 platform.minimaxi.com 的接口密钥页面。",
                ),
            );
        }
        return Err(
            crate::text::join4(
                "MiniMax 请求失败（HTTP ",
                reply.status_text.as_str(),
                "）：",
                message.as_str(),
            ),
        );
    }
    let content = match &body.content {
        Some(c) => c.clone(),
        None => String::from_str("连接成功"),
    };
    let trimmed = crate::text::trim_ws(content.as_str());
    let shown = crate::text::truncate_chars(trimmed.as_str(), 40);
    Ok(crate::text::join4("连接成功 · ", model, " · ", shown.as_str()))
}

} // verus!

verus! {

/// The key an AI diagnosis uses: the stored one, normalised.
pub fn diagnosis_key(model: &str, stored: &StoredCredential) -> (r: Result<String, String>)
    ensures
        !is_allowed_model(model@) ==> (r matches Err(e) && e@ == "不支持的 MiniMax 模型"@),
        is_allowed_model(model@) ==> match *stored {
            StoredCredential::Present(k) => (r is Ok <==> key_accepted(k@)) && (r matches Ok(out)
                ==> out@ == normalized_key(k@)),
            _ => r is Err,
        },
{
    validate_model(model)?;
    let key = read_api_key(stored)?;
    normalize_api_key(key.as_str())
}

/// The tag that closes the model's private reasoning.
pub open spec fn think_close() -> Seq<char> {
    seq!['<', '/', 't', 'h', 'i', 'n', 'k', '>']
}

/// Whether `p` is the last position where `needle` occurs in `hay`.
pub open spec fn last_occurrence(hay: Seq<char>, needle: Seq<char>, p: int) -> bool {
    crate::text::occurs_at(hay, needle, p) && forall|q: int|
        q > p ==> !crate::text::occurs_at(hay, needle, q)
}

/// A reply with everything up to the last closing reasoning tag removed.
pub open spec fn after_reasoning(s: Seq<char>) -> Seq<char> {
    if crate::text::seq_contains(s, think_close()) {
        s.skip((choose|p: int| last_occurrence(s, think_close(), p)) + 8)
    } else {
        s
    }
}

/// Whether `p` is the first position of `c` in `s`.
pub open spec fn first_of(s: Seq<char>, c: char, p: int) -> bool {
    0 <= p < s.len() && s[p] == c && forall|q: int| 0 <= q < p ==> s[q] != c
}

/// Whether `p` is the last position of `c` in `s`.
pub open spec fn last_of(s: Seq<char>, c: char, p: int) -> bool {
    0 <= p < s.len() && s[p] == c && forall|q: int| p < q < s.len() ==> s[q] != c
}

/// Whether `s` holds the character `c`.
pub open spec fn holds_char(s: Seq<char>, c: char) -> bool {
    exists|p: int| 0 <= p < s.len() && s[p] == c
}

/// Whether the span from the first `{` to the last `}` can be cut out of a
/// reply: where both braces occur, the first `{` stands at most just after
/// the last `}` (right after it, the span is empty).
pub open spec fn json_span_ok(content: Seq<char>) -> bool {
    let w = after_reasoning(content);
    holds_char(w, '{') && holds_char(w, '}') ==> (choose|p: int| first_of(w, '{', p)) <= (choose|
        p: int|
        last_of(w, '}', p)) + 1
}

/// The text from the first `{` to the last `}` of the reply, once its
/// reasoning block is removed.
pub open spec fn json_span(content: Seq<char>) -> Seq<char> {
    let w = after_reasoning(content);
    w.subrange(choose|p: int| first_of(w, '{', p), (choose|p: int| last_of(w, '}', p)) + 1)
}

proof fn lemma_last_occurrence_unique(s: Seq<char>, n: Seq<char>, p: int, q: int)
    requires
        last_occurrence(s, n, p),
        last_occurrence(s, n, q),
    ensures
        p == q,
{
}

/// Whether the span from the first `{` to the last `}` can be cut out of a
/// reply, once its reasoning block is removed: what `response_json` and
/// `parse_diagnosis` require.
pub fn reply_span_ok(content: &str) -> (r: bool)
    ensures
        r == json_span_ok(content@),
{
    let v = crate::text::chars_of(content);
    let tag = vec!['<', '/', 't', 'h', 'i', 'n', 'k', '>'];
    assert(tag@ == think_close());
    let vlen = v.len();
    let base = match crate::text::rfind(&v, &tag) {
        Some(p) => {
            proof {
                let c = choose|q: int| last_occurrence(content@, think_close(), q);
                assert(last_occurrence(content@, think_close(), p as int));
                lemma_last_occurrence_unique(content@, think_close(), c, p as int);
                assert(tag@.len() == 8);
                assert(crate::text::occurs_at(v@, tag@, p as int));
                assert(p + 8 <= vlen);
            }
            p + 8
        },
        None => 0,
    };
    let len = content.unicode_len();
    let rest = content.substring_char(base, len);
    assert(rest@ == after_reasoning(content@));
    let w = crate::text::chars_of(rest);
    let start = match crate::text::find_char(&w, '{') {
        Some(i) => i,
        None => {
            return true;
        },
    };
    let end = match crate::text::rfind_char(&w, '}') {
        Some(i) => i,
        None => {
            return true;
        },
    };
    proof {
        let a = choose|p: int| first_of(w@, '{', p);
        assert(first_of(w@, '{', start as int));
        assert(a == start as int) by {
            if a < start {
            } else if a > start {
            }
        }
        let b = choose|p: int| last_of(w@, '}', p);
        assert(last_of(w@, '}', end as int));
        assert(b == end as int) by {
            if b < end {
            } else if b > end {
            }
        }
    }
    start <= end + 1
}

/// Cuts the JSON object out of a reply from the model.
pub fn response_json(content: &str) -> (r: Result<String, String>)
    requires
        json_span_ok(content@),
    ensures
        r is Ok <==> (holds_char(after_reasoning(content@), '{') && holds_char(
            after_reasoning(content@),
            '}',
        )),
        r matches Ok(t) ==> t@ == json_span(content@),
        r matches Err(e) ==> e@ == "MiniMax 返回内容缺少 JSON"@,
{
    let v = crate::text::chars_of(content);
    let tag = vec!['<', '/', 't', 'h', 'i', 'n', 'k', '>'];
    assert(tag@ == think_close());
    let vlen = v.len();
    let base = match crate::text::rfind(&v, &tag) {
        Some(p) => {
            proof {
                let c = choose|q: int| last_occurrence(content@, think_close(), q);
                assert(last_occurrence(content@, think_close(), p as int));
                lemma_last_occurrence_unique(content@, think_close(), c, p as int);
                assert(tag@.len() == 8);
                assert(crate::text::occurs_at(v@, tag@, p as int));
                assert(p + 8 <= vlen);
            }
            p + 8
        },
        None => 0,
    };
    let len = content.unicode_len();
    let rest = content.substring_char(base, len);
    assert(rest@ == after_reasoning(content@));
    let w = crate::text::chars_of(rest);
    let start = match crate::text::find_char(&w, '{') {
        Some(i) => i,
        None => {
            return Err(String::from_str("MiniMax 返回内容缺少 JSON"));
        },
    };
    let end = match crate::text::rfind_char(&w, '}') {
        Some(i) => i,
        None => {
            return Err(String::from_str("MiniMax 返回内容缺少 JSON"));
        },
    };
    proof {
        let a = choose|p: int| first_of(w@, '{', p);
        assert(first_of(w@, '{', start as int));
        assert(a == start as int) by {
            if a < start {
            } else if a > start {
            }
        }
        let b = choose|p: int| last_of(w@, '}', p);
        assert(last_of(w@, '}', end as int));
        assert(b == end as int) by {
            if b < end {
            } else if b > end {
            }
        }
    }
    Ok(rest.substring_char(start, end + 1).to_owned())
}

/// The AI reply's text, once the transport has succeeded: a parse failure,
/// a failed status or a missing content field each give their error.
pub fn diagnosis_content(reply: &ServiceReply) -> (r: Result<String, String>)
    ensures
        match reply.body {
            None => r matches Err(e) && e@ == "MiniMax 返回了无法解析的响应（HTTP "@
                + reply.status_text@ + "）"@,
            Some(body) => if !reply.success {
                r matches Err(e) && e@ == "MiniMax 请求失败（HTTP "@ + reply.status_text@ + "）："@
                    + failure_message(body)
            } else {
                match body.content {
                    Some(c) => r == Ok::<String, String>(c),
                    None => r matches Err(e) && e@ == "MiniMax 响应中没有诊断内容"@,
                }
            },
        },
{
    let body = match &reply.body {
        None => {
            return Err(
                crate::text::join3(
                    "MiniMax 返回了无法解析的响应（HTTP ",
                    reply.status_text.as_str(),
                    "）",
                ),
            );
        },
        Some(b) => b,
    };
    if !reply.success {
        let message = failure_text(body);
        return Err(
            crate::text::join4(
                "MiniMax 请求失败（HTTP ",
                reply.status_text.as_str(),
                "）：",
                message.as_str(),
            ),
        );
    }
    match &body.content {
        Some(c) => Ok(c.clone()),
        None => Err(String::from_str("MiniMax 响应中没有诊断内容")),
    }
}

/// The string fields of the model's JSON answer.
pub struct DiagnosisFields {
    /// `summary`, where it is a string.
    pub summary: Option<String>,
    /// The string items of `details`, in order.
    pub details: Vec<String>,
    /// The string items of `suggestions`, in order.
    pub suggestions: Vec<String>,
    /// `confidence`, where it is a string.
    pub confidence: Option<String>,
}

/// The first five items, each cut to 300 characters.
pub open spec fn shown_items(items: Seq<String>) -> Seq<Seq<char>> {
    let n = if items.len() <= 5 {
        items.len()
    } else {
        5
    };
    Seq::new(n, |i: int| crate::text::take_chars(items[i]@, 300))
}

fn shorten_items(items: &Vec<String>) -> (r: Vec<String>)
    ensures
        r@.map_values(|s: String| s@) == shown_items(items@),
{
    let mut out: Vec<String> = Vec::new();
    let mut i: usize = 0;
    while i < items.len() && i < 5
        invariant
            i <= items.len(),
            i <= 5,
            out@.len() == i,
            forall|k: int| 0 <= k < i ==> out@[k]@ == crate::text::take_chars(items@[k]@, 300),
        decreases items.len() - i,
    {
        out.push(crate::text::truncate_chars(items[i].as_str(), 300));
        i = i + 1;
    }
    assert(out@.map_values(|s: String| s@) =~= shown_items(items@));
    out
}

/// The confidence level the model reports, where it is one the library knows.
pub open spec fn confidence_of(c: Option<String>) -> Seq<char> {
    match c {
        Some(s) => if s@ == "high"@ {
            "high"@
        } else if s@ == "low"@ {
            "low"@
        } else {
            "medium"@
        },
        None => "medium"@,
    }
}

/// Shapes the model's answer into a diagnosis: at most 240 characters of
/// summary, five details and five suggestions of at most 300 characters.
pub fn diagnosis_from_fields(model: &str, fields: &DiagnosisFields) -> (d: LocalDiagnosis)
    ensures
        d.summary@ == crate::text::take_chars(
            match fields.summary {
                Some(s) => s@,
                None => "MiniMax 没有给出明确结论"@,
            },
            240,
        ),
        d.details@.map_values(|s: String| s@) == shown_items(fields.details@),
        d.suggestions@.map_values(|s: String| s@) == shown_items(fields.suggestions@),
        d.confidence@ == confidence_of(fields.confidence),
        d.source@ == "minimax"@,
        d.model matches Some(m) && m@ == model@,
{
    let summary = match &fields.summary {
        Some(s) => crate::text::truncate_chars(s.as_str(), 240),
        None => crate::text::truncate_chars("MiniMax 没有给出明确结论", 240),
    };
    let confidence = match &fields.confidence {
        Some(s) => if str_eq(s.as_str(), "high") {
            String::from_str("high")
        } else if str_eq(s.as_str(), "low") {
            String::from_str("low")
        } else {
            String::from_str("medium")
        },
        None => String::from_str("medium"),
    };
    LocalDiagnosis {
        summary,
        details: shorten_items(&fields.details),
        suggestions: shorten_items(&fields.suggestions),
        confidence,
        source: String::from_str("minimax"),
        model: Some(String::from_str(model)),
    }
}

/// The top-level fields of a JSON object that a diagnosis reads, each
/// `None` where absent or of another kind; an array item is `None` where it
/// is not a string.
pub struct ReplyFields {
    pub summary: Option<String>,
    pub details: Option<Vec<Option<String>>>,
    pub suggestions: Option<Vec<Option<String>>>,
    pub confidence: Option<String>,
}

/// The fields as mathematical values.
pub struct ReplyFieldsView {
    pub summary: Option<Seq<char>>,
    pub details: Option<Seq<Option<Seq<char>>>>,
    pub suggestions: Option<Seq<Option<Seq<char>>>>,
    pub confidence: Option<Seq<char>>,
}

/// An optional string as text.
pub open spec fn opt_text(o: Option<String>) -> Option<Seq<char>> {
    match o {
        Some(s) => Some(s@),
        None => None,
    }
}

/// An optional array of optional strings as texts.
pub open spec fn opt_items(o: Option<Vec<Option<String>>>) -> Option<Seq<Option<Seq<char>>>> {
    match o {
        Some(v) => Some(v@.map_values(|x: Option<String>| opt_text(x))),
        None => None,
    }
}

/// The fields as mathematical values.
pub open spec fn fields_view(f: ReplyFields) -> ReplyFieldsView {
    ReplyFieldsView {
        summary: opt_text(f.summary),
        details: opt_items(f.details),
        suggestions: opt_items(f.suggestions),
        confidence: opt_text(f.confidence),
    }
}

/// The fields that `serde_json::from_str` reads from `text` parsed as a JSON
/// value; `None` where the text is not JSON.
pub uninterp spec fn json_reply_fields(text: Seq<char>) -> Option<ReplyFieldsView>;

/// Parses `text` with `serde_json::from_str` into a `serde_json::Value` and
/// reads its `summary`, `details`, `suggestions` and `confidence` fields.
/// The contract only names the result: it is a function of the text alone.
#[verifier::external_body]
fn read_json_fields(text: &str) -> (r: Option<ReplyFields>)
    ensures
        match r {
            Some(f) => json_reply_fields(text@) == Some(fields_view(f)),
            None => json_reply_fields(text@) is None,
        },
{
    let v: serde_json::Value = serde_json::from_str(text).ok()?;
    let text_of = |name: &str| v.get(name).and_then(|x| x.as_str()).map(str::to_owned);
    let items_of = |name: &str| {
        v.get(name).and_then(|x| x.as_array()).map(|a| a.iter().map(|x| x.as_str().map(str::to_owned)).collect())
    };
    Some(ReplyFields {
        summary: text_of("summary"),
        details: items_of("details"),
        suggestions: items_of("suggestions"),
        confidence: text_of("confidence"),
    })
}

/// The string items, in order.
pub open spec fn strings_of(s: Seq<Option<Seq<char>>>) -> Seq<Seq<char>>
    decreases s.len(),
{
    if s.len() == 0 {
        Seq::empty()
    } else {
        match s.last() {
            Some(t) => strings_of(s.drop_last()).push(t),
            None => strings_of(s.drop_last()),
        }
    }
}

/// The string items of a field, none where it is not an array.
pub open spec fn field_strings(o: Option<Seq<Option<Seq<char>>>>) -> Seq<Seq<char>> {
    match o {
        Some(s) => strings_of(s),
        None => Seq::empty(),
    }
}

fn string_items(o: &Option<Vec<Option<String>>>) -> (r: Vec<String>)
    ensures
        r@.map_values(|s: String| s@) == field_strings(opt_items(*o)),
{
    let mut out: Vec<String> = Vec::new();
    match o {
        None => {
            assert(out@.map_values(|s: String| s@) =~= Seq::<Seq<char>>::empty());
        },
        Some(v) => {
            let ghost items = v@.map_values(|x: Option<String>| opt_text(x));
            let mut i: usize = 0;
            while i < v.len()
                invariant
                    i <= v@.len(),
                    items == v@.map_values(|x: Option<String>| opt_text(x)),
                    out@.map_values(|s: String| s@) == strings_of(items.take(i as int)),
                decreases v@.len() - i,
            {
                proof {
                    assert(items.take(i + 1).drop_last() =~= items.take(i as int));
                    assert(items.take(i + 1).last() == opt_text(v@[i as int]));
                }
                match &v[i] {
                    Some(t) => {
                        out.push(t.clone());
                        proof {
                            assert(out@.map_values(|s: String| s@) =~= strings_of(items.take(i as int)).push(
                                t@,
                            ));
                        }
                    },
                    None => {},
                }
                i = i + 1;
            }
            proof {
                assert(items.take(v@.len() as int) =~= items);
            }
        },
    }
    out
}

/// The fields of a parsed answer that a diagnosis uses; an answer that is
/// not JSON is refused.
pub fn diagnosis_fields(parsed: Option<ReplyFields>) -> (r: Result<DiagnosisFields, String>)
    ensures
        match parsed {
            None => r matches Err(e) && e@ == "MiniMax 返回内容格式不正确"@,
            Some(f) => r matches Ok(d) && opt_text(d.summary) == opt_text(f.summary)
                && d.details@.map_values(|s: String| s@) == field_strings(opt_items(f.details))
                && d.suggestions@.map_values(|s: String| s@) == field_strings(opt_items(f.suggestions))
                && opt_text(d.confidence) == opt_text(f.confidence),
        },
{
    match parsed {
        None => Err(String::from_str("MiniMax 返回内容格式不正确")),
        Some(f) => {
            let details = string_items(&f.details);
            let suggestions = string_items(&f.suggestions);
            Ok(DiagnosisFields { summary: f.summary, details, suggestions, confidence: f.confidence })
        },
    }
}

/// The first five texts, each cut to 300 characters.
pub open spec fn shown_texts(items: Seq<Seq<char>>) -> Seq<Seq<char>> {
    let n = if items.len() <= 5 {
        items.len()
    } else {
        5
    };
    Seq::new(n, |i: int| crate::text::take_chars(items[i], 300))
}

/// The confidence level among those the library knows.
pub open spec fn confidence_text(c: Option<Seq<char>>) -> Seq<char> {
    match c {
        Some(s) => if s == "high"@ {
            "high"@
        } else if s == "low"@ {
            "low"@
        } else {
            "medium"@
        },
        None => "medium"@,
    }
}

/// Turns the model's reply text into a diagnosis: the JSON object past the
/// reasoning block, parsed, shaped by `diagnosis_from_fields`.
pub fn parse_diagnosis(model: &str, content: &str) -> (r: Result<LocalDiagnosis, String>)
    requires
        json_span_ok(content@),
    ensures
        !(holds_char(after_reasoning(content@), '{') && holds_char(after_reasoning(content@), '}'))
            ==> (r matches Err(e) && e@ == "MiniMax 返回内容缺少 JSON"@),
        holds_char(after_reasoning(content@), '{') && holds_char(after_reasoning(content@), '}')
            ==> match json_reply_fields(json_span(content@)) {
            None => r matches Err(e) && e@ == "MiniMax 返回内容格式不正确"@,
            Some(f) => r matches Ok(d) && d.summary@ == crate::text::take_chars(
                match f.summary {
                    Some(s) => s,
                    None => "MiniMax 没有给出明确结论"@,
                },
                240,
            ) && d.details@.map_values(|s: String| s@) == shown_texts(field_strings(f.details))
                && d.suggestions@.map_values(|s: String| s@) == shown_texts(
                field_strings(f.suggestions),
            ) && d.confidence@ == confidence_text(f.confidence) && d.source@ == "minimax"@
                && opt_text(d.model) == Some(model@),
        },
{
    let text = response_json(content)?;
    let fields = diagnosis_fields(read_json_fields(text.as_str()))?;
    let d = diagnosis_from_fields(model, &fields);
    proof {
        assert(d.details@.map_values(|s: String| s@) =~= shown_texts(
            fields.details@.map_values(|s: String| s@),
        ));
        assert(d.suggestions@.map_values(|s: String| s@) =~= shown_texts(
            fields.suggestions@.map_values(|s: String| s@),
        ));
    }
    Ok(d)
}

} // verus!

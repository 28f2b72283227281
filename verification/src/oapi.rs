//! Uploading media.

use crate::error::{Error, ErrorView};
use crate::json;
use crate::json::{Json, JsonView};
use crate::record;
use crate::record::{
    is_record, read_integer, read_nullable_text, read_required_integer, read_text,
};
use crate::text;
use crate::url;
use vstd::prelude::*;

verus! {

/// A medium that was uploaded.
#[derive(Debug)]
pub struct MediaUploadResult {
    /// Its key without the leading `@`.
    pub media_id: String,
    /// Its key as it came; files, videos and sounds are sent with it.
    pub raw_media_id: String,
    pub kind: String,
    /// When it was uploaded.
    pub created_at: i64,
    /// Where it can be fetched from.
    pub download_url: String,
}

pub struct MediaView {
    pub media_id: Seq<char>,
    pub raw_media_id: Seq<char>,
    pub kind: Seq<char>,
    pub created_at: i64,
    pub download_url: Seq<char>,
}

impl View for MediaUploadResult {
    type V = MediaView;

    open spec fn view(&self) -> MediaView {
        MediaView {
            media_id: self.media_id@,
            raw_media_id: self.raw_media_id@,
            kind: self.kind@,
            created_at: self.created_at,
            download_url: self.download_url@,
        }
    }
}

impl Clone for MediaUploadResult {
    fn clone(&self) -> (r: MediaUploadResult)
        ensures
            r@ == self@,
    {
        MediaUploadResult {
            media_id: self.media_id.clone(),
            raw_media_id: self.raw_media_id.clone(),
            kind: self.kind.clone(),
            created_at: self.created_at,
            download_url: self.download_url.clone(),
        }
    }
}

/// Where the token for uploads is asked for.
pub open spec fn token_address(oapi_base: Seq<char>, client_id: Seq<char>, client_secret: Seq<char>) -> Seq<char> {
    oapi_base + "/gettoken?appkey="@ + url::percent_encoded(client_id) + "&appsecret="@
        + url::percent_encoded(client_secret)
}

/// Where the token for uploads is asked for.
pub fn token_url(oapi_base: &str, client_id: &str, client_secret: &str) -> (r: String)
    ensures
        r@ == oapi_base@ + "/gettoken?appkey="@ + url::percent_encoded(client_id@)
            + "&appsecret="@ + url::percent_encoded(client_secret@),
        r@ == token_address(oapi_base@, client_id@, client_secret@),
{
    let mut s = text::owned(oapi_base);
    s.append("/gettoken?appkey=");
    s.append(url::percent_encode(client_id).as_str());
    s.append("&appsecret=");
    s.append(url::percent_encode(client_secret).as_str());
    s
}

/// Where a medium is uploaded to.
pub open spec fn upload_address(oapi_base: Seq<char>, token: Seq<char>, media_type: Seq<char>) -> Seq<char> {
    oapi_base + "/media/upload?access_token="@ + url::percent_encoded(token) + "&type="@
        + url::percent_encoded(media_type)
}

/// Where a medium is uploaded to.
pub fn upload_url(oapi_base: &str, token: &str, media_type: &str) -> (r: String)
    ensures
        r@ == oapi_base@ + "/media/upload?access_token="@ + url::percent_encoded(token@)
            + "&type="@ + url::percent_encoded(media_type@),
        r@ == upload_address(oapi_base@, token@, media_type@),
{
    let mut s = text::owned(oapi_base);
    s.append("/media/upload?access_token=");
    s.append(url::percent_encode(token).as_str());
    s.append("&type=");
    s.append(url::percent_encode(media_type).as_str());
    s
}

/// The content type of an upload: as it is given, else by the kind of medium.
pub open spec fn content_type_of(given: Seq<char>, media_type: Seq<char>) -> Seq<char> {
    if given.len() > 0 {
        given
    } else if media_type == "image"@ {
        "image/jpeg"@
    } else {
        "application/octet-stream"@
    }
}

/// The content type of an upload.
pub fn content_type(given: &str, media_type: &str) -> (r: String)
    ensures
        r@ == content_type_of(given@, media_type@),
{
    if !given.is_empty() {
        text::owned(given)
    } else if text::same(media_type, "image") {
        text::owned("image/jpeg")
    } else {
        text::owned("application/octet-stream")
    }
}

/// What a refusal of the service is told as.
pub open spec fn refusal(what: Seq<char>, errcode: i64, errmsg: Seq<char>) -> ErrorView {
    ErrorView::Channel(
        what + ": errcode="@ + text::signed_decimal(errcode as int) + " errmsg="@ + errmsg,
    )
}

fn refusal_error(what: &str, errcode: i64, errmsg: &str) -> (r: Error)
    ensures
        r@ == refusal(what@, errcode, errmsg@),
{
    let mut s = text::owned(what);
    s.append(": errcode=");
    s.append(text::signed_decimal_text(errcode).as_str());
    s.append(" errmsg=");
    s.append(errmsg);
    Error::channel(s.as_str())
}

/// The token and its lifetime in the answer of the service, when it was read as
/// JSON with the given outcome.
pub open spec fn token_answer(read: Result<JsonView, Seq<char>>) -> Result<
    (Seq<char>, i64),
    ErrorView,
> {
    match read {
        Err(e) => Err(ErrorView::Json(e)),
        Ok(v) => match (
            record::required_integer(v, "errcode"@, 0),
            record::nullable_text(v, "errmsg"@, 1),
            record::text_slot(v, "access_token"@, 2),
            record::integer_slot(v, "expires_in"@, 3),
        ) {
            (Some(errcode), Some(errmsg), Some(token), Some(lifetime)) => if !record::record(v, 4) {
                Err(ErrorView::Json("token answer of an unexpected type"@))
            } else if errcode != 0 || token.len() == 0 {
                Err(refusal("oapi gettoken"@, errcode, errmsg))
            } else {
                Ok((token, lifetime))
            },
            _ => Err(ErrorView::Json("token answer of an unexpected type"@)),
        },
    }
}

/// The token and its lifetime in the answer of the service, when it was read as
/// JSON with the given outcome.
pub fn read_token_answer(read: Result<Json, String>) -> (r: Result<(String, i64), Error>)
    ensures
        crate::token::token_answer_view(r) == token_answer(json::outcome(read)),
{
    let v = match read {
        Err(e) => return Err(Error::Json(e)),
        Ok(v) => v,
    };
    match (
        read_required_integer(&v, "errcode", 0),
        read_nullable_text(&v, "errmsg", 1),
        read_text(&v, "access_token", 2),
        read_integer(&v, "expires_in", 3),
    ) {
        (Some(errcode), Some(errmsg), Some(token), Some(lifetime)) => {
            if !is_record(&v, 4) {
                Err(Error::Json(text::owned("token answer of an unexpected type")))
            } else if errcode != 0 || token.as_str().is_empty() {
                Err(refusal_error("oapi gettoken", errcode, errmsg.as_str()))
            } else {
                Ok((token, lifetime))
            }
        },
        _ => Err(Error::Json(text::owned("token answer of an unexpected type"))),
    }
}

/// The token and its lifetime in the answer of the service.
pub fn accept_token_answer(raw: &str) -> (r: Result<(String, i64), Error>)
    ensures
        crate::token::token_answer_view(r) == token_answer(
            json::parsed_json(vstd::utf8::encode_utf8(raw@)),
        ),
{
    read_token_answer(json::parse(raw.as_bytes()))
}

/// The key of a medium without the leading `@`.
pub open spec fn bare_id(raw_id: Seq<char>) -> Seq<char> {
    if raw_id.len() > 0 && raw_id[0] == '@' {
        raw_id.skip(1)
    } else {
        raw_id
    }
}

/// The medium with a key.
pub open spec fn media_of(raw_id: Seq<char>, kind: Seq<char>, created_at: i64) -> MediaView {
    MediaView {
        media_id: bare_id(raw_id),
        raw_media_id: raw_id,
        kind,
        created_at,
        download_url: "https://down.dingtalk.com/media/"@ + bare_id(raw_id),
    }
}

/// The medium in the answer of the service, when it was read as JSON with the
/// given outcome.
pub open spec fn upload_answer(read: Result<JsonView, Seq<char>>) -> Result<MediaView, ErrorView> {
    match read {
        Err(e) => Err(ErrorView::Json(e)),
        Ok(v) => match (
            record::required_integer(v, "errcode"@, 0),
            record::nullable_text(v, "errmsg"@, 1),
            record::text_slot(v, "media_id"@, 2),
            record::text_slot(v, "type"@, 3),
            record::integer_slot(v, "created_at"@, 4),
        ) {
            (Some(errcode), Some(errmsg), Some(id), Some(kind), Some(created_at)) => if
                !record::record(v, 5) {
                Err(ErrorView::Json("upload answer of an unexpected type"@))
            } else if errcode != 0 {
                Err(refusal("media/upload"@, errcode, errmsg))
            } else {
                Ok(media_of(id, kind, created_at))
            },
            _ => Err(ErrorView::Json("upload answer of an unexpected type"@)),
        },
    }
}

pub open spec fn upload_view(r: Result<MediaUploadResult, Error>) -> Result<MediaView, ErrorView> {
    match r {
        Ok(m) => Ok(m@),
        Err(e) => Err(e@),
    }
}

/// The medium in the answer of the service, when it was read as JSON with the
/// given outcome.
pub fn read_upload_answer(read: Result<Json, String>) -> (r: Result<MediaUploadResult, Error>)
    ensures
        upload_view(r) == upload_answer(json::outcome(read)),
{
    let v = match read {
        Err(e) => return Err(Error::Json(e)),
        Ok(v) => v,
    };
    match (
        read_required_integer(&v, "errcode", 0),
        read_nullable_text(&v, "errmsg", 1),
        read_text(&v, "media_id", 2),
        read_text(&v, "type", 3),
        read_integer(&v, "created_at", 4),
    ) {
        (Some(errcode), Some(errmsg), Some(raw_id), Some(kind), Some(created_at)) => {
            if !is_record(&v, 5) {
                return Err(Error::Json(text::owned("upload answer of an unexpected type")));
            }
            if errcode != 0 {
                return Err(refusal_error("media/upload", errcode, errmsg.as_str()));
            }
            let chars = text::chars_of(raw_id.as_str());
            let media_id = if chars.len() > 0 && chars[0] == '@' {
                let rest = text::slice_of(&chars, 1, chars.len());
                assert(rest@ =~= chars@.skip(1));
                text::string_of(&rest)
            } else {
                raw_id.clone()
            };
            let download_url = text::cat("https://down.dingtalk.com/media/", media_id.as_str());
            Ok(
                MediaUploadResult {
                    media_id,
                    raw_media_id: raw_id,
                    kind,
                    created_at,
                    download_url,
                },
            )
        },
        _ => Err(Error::Json(text::owned("upload answer of an unexpected type"))),
    }
}

/// The medium in the answer of the service.
pub fn accept_upload_answer(raw: &str) -> (r: Result<MediaUploadResult, Error>)
    ensures
        upload_view(r) == upload_answer(json::parsed_json(vstd::utf8::encode_utf8(raw@))),
{
    read_upload_answer(json::parse(raw.as_bytes()))
}

/// A token is taken from an answer without an error that holds one; an error is
/// told with its number and its words.
pub proof fn token_is_taken_where_there_is_no_error(
    v: JsonView,
    errcode: i64,
    errmsg: Seq<char>,
    token: Seq<char>,
    lifetime: i64,
)
    requires
        v is Object,
        v.get("errcode"@) == Some(JsonView::Integer(errcode)),
        v.get("errmsg"@) == Some(JsonView::Text(errmsg)),
        v.get("access_token"@) == Some(JsonView::Text(token)),
        v.get("expires_in"@) == Some(JsonView::Integer(lifetime)),
    ensures
        errcode == 0 && token.len() > 0 ==> token_answer(Ok(v)) == Ok::<
            (Seq<char>, i64),
            ErrorView,
        >((token, lifetime)),
        errcode != 0 || token.len() == 0 ==> token_answer(Ok(v)) == Err::<
            (Seq<char>, i64),
            ErrorView,
        >(
            ErrorView::Channel(
                "oapi gettoken"@ + ": errcode="@ + text::signed_decimal(errcode as int)
                    + " errmsg="@ + errmsg,
            ),
        ),
{
}

/// A medium that was uploaded is known by its key, without the mark before it and
/// as it came, and can be fetched by it; an error is told with its number and its
/// words.
pub proof fn medium_is_known_by_its_key(
    v: JsonView,
    errcode: i64,
    errmsg: Seq<char>,
    id: Seq<char>,
    kind: Seq<char>,
    created_at: i64,
)
    requires
        v is Object,
        v.get("errcode"@) == Some(JsonView::Integer(errcode)),
        v.get("errmsg"@) == Some(JsonView::Text(errmsg)),
        v.get("media_id"@) == Some(JsonView::Text(seq!['@'] + id)),
        v.get("type"@) == Some(JsonView::Text(kind)),
        v.get("created_at"@) == Some(JsonView::Integer(created_at)),
    ensures
        errcode == 0 ==> {
            &&& upload_answer(Ok(v)) matches Ok(m)
            &&& m.media_id == id
            &&& m.raw_media_id == seq!['@'] + id
            &&& m.kind == kind
            &&& m.created_at == created_at
            &&& m.download_url == "https://down.dingtalk.com/media/"@ + id
        },
        errcode != 0 ==> upload_answer(Ok(v)) == Err::<MediaView, ErrorView>(
            ErrorView::Channel(
                "media/upload"@ + ": errcode="@ + text::signed_decimal(errcode as int)
                    + " errmsg="@ + errmsg,
            ),
        ),
{
    assert((seq!['@'] + id).skip(1) =~= id);
}

/// The content type is the one that is given; without one, pictures are JPEG and
/// all else plain bytes.
pub proof fn content_type_by_kind(given: Seq<char>, media_type: Seq<char>)
    ensures
        given.len() > 0 ==> content_type_of(given, media_type) == given,
        content_type_of(Seq::empty(), "image"@) == "image/jpeg"@,
        media_type != "image"@ ==> content_type_of(Seq::empty(), media_type)
            == "application/octet-stream"@,
{
}

/// The token for uploads is asked for with the client and its secret, and a medium is
/// uploaded with the token and its kind, below the address of the service.
pub proof fn places_of_uploads(
    base: Seq<char>,
    id: Seq<char>,
    secret: Seq<char>,
    token: Seq<char>,
    kind: Seq<char>,
)
    ensures
        token_address(base, id, secret).take(base.len() as int) == base,
        token_address(base, id, secret).skip(base.len() as int) == "/gettoken?appkey="@ + (
        url::percent_encoded(id) + ("&appsecret="@ + url::percent_encoded(secret))),
        upload_address(base, token, kind).take(base.len() as int) == base,
        upload_address(base, token, kind).skip(base.len() as int)
            == "/media/upload?access_token="@ + (url::percent_encoded(token) + ("&type="@
            + url::percent_encoded(kind))),
{
    let n = base.len() as int;
    let a = token_address(base, id, secret);
    let u = upload_address(base, token, kind);
    assert(a.take(n) =~= base);
    assert(u.take(n) =~= base);
    assert(a.skip(n) =~= "/gettoken?appkey="@ + (url::percent_encoded(id) + ("&appsecret="@
        + url::percent_encoded(secret))));
    assert(u.skip(n) =~= "/media/upload?access_token="@ + (url::percent_encoded(token) + (
    "&type="@ + url::percent_encoded(kind))));
}

/// The answers of the service can be lists of their fields in their order.
pub proof fn answers_can_be_lists(
    errmsg: Seq<char>,
    token: Seq<char>,
    lifetime: i64,
    id: Seq<char>,
    kind: Seq<char>,
    created_at: i64,
)
    requires
        token.len() > 0,
    ensures
        token_answer(
            Ok(
                JsonView::Array(
                    seq![
                        JsonView::Integer(0),
                        JsonView::Text(errmsg),
                        JsonView::Text(token),
                        JsonView::Integer(lifetime),
                    ],
                ),
            ),
        ) == Ok::<(Seq<char>, i64), ErrorView>((token, lifetime)),
        ({
            let r = upload_answer(
                Ok(
                    JsonView::Array(
                        seq![
                            JsonView::Integer(0),
                            JsonView::Text(errmsg),
                            JsonView::Text(id),
                            JsonView::Text(kind),
                            JsonView::Integer(created_at),
                        ],
                    ),
                ),
            );
            &&& r matches Ok(m)
            &&& m.raw_media_id == id
            &&& m.kind == kind
            &&& m.created_at == created_at
        }),
{
}

} // verus!

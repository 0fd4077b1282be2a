//! Answers that the balancer gives by itself.

use vstd::prelude::*;
use vstd::string::StringExecFns;

verus! {

/// The body of an answer.
pub enum Body {
    Text(String),
    Bytes(Vec<u8>),
}

/// An answer to a client.
pub struct Reply {
    pub status: u16,
    pub content_type: Option<String>,
    pub body: Body,
}

/// What a body holds.
#[verifier::ext_equal]
pub enum BodyView {
    Text(Seq<char>),
    Bytes(Seq<u8>),
}

/// What an answer says.
#[verifier::ext_equal]
pub struct ReplyView {
    pub status: u16,
    pub content_type: Option<Seq<char>>,
    pub body: BodyView,
}

impl View for Body {
    type V = BodyView;

    open spec fn view(&self) -> BodyView {
        match *self {
            Body::Text(text) => BodyView::Text(text@),
            Body::Bytes(bytes) => BodyView::Bytes(bytes@),
        }
    }
}

impl View for Reply {
    type V = ReplyView;

    open spec fn view(&self) -> ReplyView {
        ReplyView {
            status: self.status,
            content_type: match self.content_type {
                Some(name) => Some(name@),
                None => None,
            },
            body: self.body@,
        }
    }
}

/// An answer of plain text.
pub open spec fn plain(status: u16, text: Seq<char>) -> ReplyView {
    ReplyView { status, content_type: None, body: BodyView::Text(text) }
}

/// The answer to a client that sends too much.
pub open spec fn too_many_requests() -> ReplyView {
    plain(429, "429 Too Many Requests\n"@)
}

/// The answer when no backend is live.
pub open spec fn no_backend() -> ReplyView {
    plain(503, "No healthy backends avaiable\n"@)
}

/// The answer when the backend at `addr` failed the request.
pub open spec fn bad_gateway(addr: Seq<char>) -> ReplyView {
    plain(502, "502 Bad Gateway: Backend "@ + addr + " dropped the Connection\n"@)
}

/// The answer when as many connections are active as may be.
pub open spec fn busy() -> ReplyView {
    plain(503, "Too many active connections\n"@)
}

/// The answer when the backend at `addr` took too long.
pub open spec fn gateway_timeout(addr: Seq<char>) -> ReplyView {
    plain(504, "504 Gateway Timeout: Backend "@ + addr + " took too long\n"@)
}

/// The answer with metrics.
pub open spec fn metrics_reply(text: Seq<char>) -> ReplyView {
    ReplyView { status: 200, content_type: Some("text/plain; version=0.0.4"@), body: BodyView::Text(text) }
}

/// The answer with a body out of the cache.
pub open spec fn from_cache(body: Seq<u8>) -> ReplyView {
    ReplyView { status: 200, content_type: None, body: BodyView::Bytes(body) }
}

/// The answer with a page.
pub open spec fn html(page: Seq<char>) -> ReplyView {
    ReplyView { status: 200, content_type: Some("text/html"@), body: BodyView::Text(page) }
}

impl Reply {
    /// An answer of plain text. A status has three digits.
    pub fn plain(status: u16, text: String) -> (res: Reply)
        requires
            100 <= status <= 999,
        ensures
            res@ == plain(status, text@),
    {
        Reply { status, content_type: None, body: Body::Text(text) }
    }

    /// The answer to a client that sends too much.
    pub fn too_many_requests() -> (res: Reply)
        ensures
            res@ == too_many_requests(),
    {
        Reply::plain(429, "429 Too Many Requests\n".to_owned())
    }

    /// The answer when no backend is live.
    pub fn no_backend() -> (res: Reply)
        ensures
            res@ == no_backend(),
    {
        Reply::plain(503, "No healthy backends avaiable\n".to_owned())
    }

    /// The answer when the backend at `addr` failed the request.
    pub fn bad_gateway(addr: &str) -> (res: Reply)
        ensures
            res@ == bad_gateway(addr@),
    {
        let text: String = "502 Bad Gateway: Backend ".to_owned().concat(addr).concat(
            " dropped the Connection\n",
        );
        Reply::plain(502, text)
    }

    /// The answer when as many connections are active as may be.
    pub fn busy() -> (res: Reply)
        ensures
            res@ == busy(),
    {
        Reply::plain(503, "Too many active connections\n".to_owned())
    }

    /// The answer when the backend at `addr` took too long.
    pub fn gateway_timeout(addr: &str) -> (res: Reply)
        ensures
            res@ == gateway_timeout(addr@),
    {
        let text: String = "504 Gateway Timeout: Backend ".to_owned().concat(addr).concat(
            " took too long\n",
        );
        Reply::plain(504, text)
    }

    /// The answer with metrics.
    pub fn metrics(text: String) -> (res: Reply)
        ensures
            res@ == metrics_reply(text@),
    {
        Reply {
            status: 200,
            content_type: Some("text/plain; version=0.0.4".to_owned()),
            body: Body::Text(text),
        }
    }

    /// The answer with a body out of the cache.
    pub fn from_cache(body: Vec<u8>) -> (res: Reply)
        ensures
            res@ == from_cache(body@),
    {
        Reply { status: 200, content_type: None, body: Body::Bytes(body) }
    }

    /// The answer with a page.
    pub fn html(page: String) -> (res: Reply)
        ensures
            res@ == html(page@),
    {
        Reply { status: 200, content_type: Some("text/html".to_owned()), body: Body::Text(page) }
    }
}

/// An answer is seen as it is: its status, its type and its body, character by character and byte by
/// byte.
pub proof fn law_answer_is_seen_as_it_is(reply: Reply)
    ensures
        reply@.status == reply.status,
        reply.content_type matches Some(name) ==> reply@.content_type == Some(name@),
        reply.content_type is None ==> reply@.content_type is None,
        reply.body matches Body::Text(text) ==> reply@.body == BodyView::Text(text@),
        reply.body matches Body::Bytes(bytes) ==> reply@.body == BodyView::Bytes(bytes@),
{
}

/// An answer of plain text has the status and the text that it was made of, and no type.
pub proof fn law_plain_answer_says_its_text(status: u16, text: Seq<char>)
    ensures
        plain(status, text).status == status,
        plain(status, text).content_type is None,
        plain(status, text).body == BodyView::Text(text),
{
}

/// The fixed answers have their status, no type, and their text.
pub proof fn law_fixed_answers_say_what_is_wrong()
    ensures
        too_many_requests().status == 429,
        too_many_requests().content_type is None,
        too_many_requests().body == BodyView::Text("429 Too Many Requests\n"@),
        no_backend().status == 503,
        no_backend().content_type is None,
        no_backend().body == BodyView::Text("No healthy backends avaiable\n"@),
        busy().status == 503,
        busy().content_type is None,
        busy().body == BodyView::Text("Too many active connections\n"@),
{
}

/// The answer for a failed request has status 502 and names the backend, whatever its address, once
/// and in full.
pub proof fn law_bad_gateway_names_the_backend(addr: Seq<char>)
    ensures
        bad_gateway(addr).status == 502,
        bad_gateway(addr).content_type is None,
        bad_gateway(addr).body matches BodyView::Text(t) && {
            let head = "502 Bad Gateway: Backend "@;
            let tail = " dropped the Connection\n"@;
            &&& t.len() == head.len() + addr.len() + tail.len()
            &&& t.take(head.len() as int) == head
            &&& t.subrange(head.len() as int, (head.len() + addr.len()) as int) == addr
            &&& t.skip((head.len() + addr.len()) as int) == tail
        },
{
    let head = "502 Bad Gateway: Backend "@;
    let tail = " dropped the Connection\n"@;
    let t = bad_gateway(addr).body->Text_0;
    assert(t.take(head.len() as int) =~= head);
    assert(t.subrange(head.len() as int, (head.len() + addr.len()) as int) =~= addr);
    assert(t.skip((head.len() + addr.len()) as int) =~= tail);
}

/// The answer for a request that took too long has status 504 and names the backend, whatever its
/// address, once and in full.
pub proof fn law_gateway_timeout_names_the_backend(addr: Seq<char>)
    ensures
        gateway_timeout(addr).status == 504,
        gateway_timeout(addr).content_type is None,
        gateway_timeout(addr).body matches BodyView::Text(t) && {
            let head = "504 Gateway Timeout: Backend "@;
            let tail = " took too long\n"@;
            &&& t.len() == head.len() + addr.len() + tail.len()
            &&& t.take(head.len() as int) == head
            &&& t.subrange(head.len() as int, (head.len() + addr.len()) as int) == addr
            &&& t.skip((head.len() + addr.len()) as int) == tail
        },
{
    let head = "504 Gateway Timeout: Backend "@;
    let tail = " took too long\n"@;
    let t = gateway_timeout(addr).body->Text_0;
    assert(t.take(head.len() as int) =~= head);
    assert(t.subrange(head.len() as int, (head.len() + addr.len()) as int) =~= addr);
    assert(t.skip((head.len() + addr.len()) as int) =~= tail);
}

/// An answer out of the cache has status 200 and every byte of what was found, in order, and no other.
pub proof fn law_cached_body_is_answered_whole(body: Seq<u8>)
    ensures
        from_cache(body).status == 200,
        from_cache(body).content_type is None,
        from_cache(body).body matches BodyView::Bytes(b) && b.len() == body.len() && forall|i: int|
            0 <= i < body.len() ==> #[trigger] b[i] == body[i],
{
}

/// Different bodies in the cache give different answers.
pub proof fn law_cached_bodies_are_told_apart(a: Seq<u8>, b: Seq<u8>)
    requires
        from_cache(a) == from_cache(b),
    ensures
        a == b,
{
    assert(from_cache(a).body->Bytes_0 == from_cache(b).body->Bytes_0);
}

/// Pages and metrics are answered with status 200, under their types, whole.
pub proof fn law_texts_are_answered_whole(text: Seq<char>)
    ensures
        html(text).status == 200,
        html(text).content_type == Some("text/html"@),
        html(text).body matches BodyView::Text(t) && t.len() == text.len() && forall|i: int|
            0 <= i < text.len() ==> #[trigger] t[i] == text[i],
        metrics_reply(text).status == 200,
        metrics_reply(text).content_type == Some("text/plain; version=0.0.4"@),
        metrics_reply(text).body matches BodyView::Text(t) && t.len() == text.len() && forall|i: int|
            0 <= i < text.len() ==> #[trigger] t[i] == text[i],
{
}

} // verus!

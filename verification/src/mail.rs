//! The e-mail that carries a sign-in link, as sent through Resend's API.
use crate::json::{json_get, json_text, member, texts, Json};
use crate::text::push_str;
use vstd::prelude::*;

verus! {

/// The sender when none is configured.
pub open spec fn default_sender() -> Seq<char> {
    "Heimdall <heimdall@3lines.studio>"@
}

/// The subject of every sign-in mail.
pub open spec fn subject_spec() -> Seq<char> {
    "Tu link para entrar a Heimdall"@
}

/// The HTML body of the mail that carries `link`.
pub open spec fn body_spec(link: Seq<char>) -> Seq<char> {
    "<p>Entrá a Heimdall con este link:</p><p><a href=\""@ + link + "\">"@ + link
        + "</a></p><p>Vence en quince minutos y sirve una sola vez.</p>"@
}

/// The HTML body of the mail that carries `link`.
pub fn body(link: &str) -> (r: String)
    ensures
        r@ == body_spec(link@),
{
    let mut out = String::from_str("<p>Entrá a Heimdall con este link:</p><p><a href=\"");
    push_str(&mut out, link);
    push_str(&mut out, "\">");
    push_str(&mut out, link);
    push_str(&mut out, "</a></p><p>Vence en quince minutos y sirve una sola vez.</p>");
    out
}

/// Whether `message` is the API request that mails `link` from `from` to `to`:
/// an object with exactly the members `from`, `to` (a one-address list),
/// `subject` and `html`.
pub open spec fn is_message(message: Json, from: Seq<char>, to: Seq<char>, link: Seq<char>) -> bool {
    &&& message matches Json::Object(m) && m@.len() == 4
    &&& json_text(json_get(message, "from"@)) == Some(from)
    &&& json_get(message, "to"@) matches Some(Json::Array(list)) && list@.len() == 1 && texts(
        list@,
    ) == seq![to]
    &&& json_text(json_get(message, "subject"@)) == Some(subject_spec())
    &&& json_text(json_get(message, "html"@)) == Some(body_spec(link))
}

/// What sending failed with: the status Resend answered and its text, or the
/// transport error when there was no answer.
pub open spec fn failure_spec(status: Option<u16>, detail: Seq<char>) -> Seq<char> {
    match status {
        Some(s) => "resend contestó "@ + crate::text::decimal(s as nat) + ": "@ + detail,
        None => "no pude mandar el mail: "@ + detail,
    }
}

/// A sender of sign-in links through Resend.
pub struct Mail {
    key: String,
    from: String,
}

impl Mail {
    /// The API key.
    pub closed spec fn api_key(&self) -> Seq<char> {
        self.key@
    }

    /// The address the mails come from.
    pub closed spec fn sender(&self) -> Seq<char> {
        self.from@
    }

    /// A sender with the API `key`, mailing from `from`, or from Heimdall's
    /// own address when that is not given.
    pub fn new(key: String, from: Option<String>) -> (r: Mail)
        ensures
            r.api_key() == key@,
            r.sender() == (match from {
                Some(f) => f@,
                None => default_sender(),
            }),
    {
        let from = match from {
            Some(f) => f,
            None => String::from_str("Heimdall <heimdall@3lines.studio>"),
        };
        Mail { key, from }
    }

    /// The `Authorization` header of the API request.
    pub fn authorization(&self) -> (r: String)
        ensures
            r@ == "Bearer "@ + self.api_key(),
    {
        let mut out = String::from_str("Bearer ");
        push_str(&mut out, self.key.as_str());
        out
    }

    /// The API request that mails `link` to `to`.
    pub fn message(&self, to: &str, link: &str) -> (r: Json)
        ensures
            is_message(r, self.sender(), to@, link@),
    {
        let mut list: Vec<Json> = Vec::new();
        list.push(Json::text(to));
        let mut m: Vec<(String, Json)> = Vec::new();
        m.push((String::from_str("from"), Json::Text(self.from.clone())));
        m.push((String::from_str("to"), Json::Array(list)));
        m.push((String::from_str("subject"), Json::text("Tu link para entrar a Heimdall")));
        m.push((String::from_str("html"), Json::Text(body(link))));
        proof {
            reveal_strlit("from");
            reveal_strlit("to");
            reveal_strlit("subject");
            reveal_strlit("html");
            reveal_strlit("Tu link para entrar a Heimdall");
            let s = m@;
            assert(s[0].0@ == "from"@);
            assert(s[1].0@ == "to"@);
            assert(s[2].0@ == "subject"@);
            assert(s[3].0@ == "html"@);
            crate::json::lemma_member_at(s, "from"@, 0);
            crate::json::lemma_member_at(s, "to"@, 1);
            crate::json::lemma_member_at(s, "subject"@, 2);
            assert(s[0].0@[0] != "html"@[0]);
            crate::json::lemma_member_at(s, "html"@, 3);
            let l = list@;
            assert(l.drop_last() =~= Seq::<Json>::empty());
            assert(texts(l) =~= texts(l.drop_last()).push(to@));
        }
        Json::Object(m)
    }

    /// The error a failed send is reported with.
    pub fn failure(status: Option<u16>, detail: &str) -> (r: String)
        ensures
            r@ == failure_spec(status, detail@),
    {
        match status {
            Some(s) => {
                let mut out = String::from_str("resend contestó ");
                crate::text::push_decimal(&mut out, s as u64);
                push_str(&mut out, ": ");
                push_str(&mut out, detail);
                out
            },
            None => {
                let mut out = String::from_str("no pude mandar el mail: ");
                push_str(&mut out, detail);
                out
            },
        }
    }
}

} // verus!

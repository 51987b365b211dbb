//! The SMS facade: a send is two procedure calls against the SOAP
//! client — `user.info` to learn the authenticated user's identifier,
//! then `sms.send_sms` with that identifier and the caller's fields.
//! The flow is a small state machine; the caller's transport performs
//! each returned request and feeds the response body back.

use vstd::prelude::*;
use vstd::string::StringExecFns;
use crate::client::{SoapClient, SoapRequest, spec_url, spec_envelope, spec_procedure,
    spec_envelope_pre, tag_at, no_angle, has_auth_prefix, lemma_request_body_one_auth};
use crate::reader::{parse, value, spec_parse, spec_value, pairs_view};
use crate::tokens::xml_tokens_of;

verus! {

/// The base service URL.
pub open spec fn spec_base_url() -> Seq<char> {
    "https://api.tigron.net/soap"@
}

/// The XML namespace of the header and procedure elements.
pub open spec fn spec_namespace() -> Seq<char> {
    "https://www.tigron.net/ns/"@
}

/// The `send_sms` parameters, in their required order.
pub open spec fn spec_send_params(user_id: Seq<char>, from: Seq<char>, to: Seq<char>, message: Seq<char>) -> Seq<(Seq<char>, Seq<char>)> {
    seq![("user_id"@, user_id), ("from"@, from), ("to"@, to), ("message"@, message)]
}

/// The authenticated user identifier in a `user.info` response body:
/// the first `id` value of its pairs, or the empty string.
pub open spec fn spec_user_id(body: Seq<char>) -> Seq<char> {
    spec_value(spec_parse(xml_tokens_of(body)), "id"@)
}

/// Client for sending a text message through Tigron's API.
pub struct TigronSms {
    /// The (username, password) pair.
    pub credentials: (String, String),
}

impl TigronSms {
    /// A SOAP client against Tigron's endpoint with these credentials.
    pub fn soap_client(&self) -> (r: SoapClient)
        ensures
            r.url@ == spec_base_url(),
            r.ns@ == spec_namespace(),
            r.credentials.0@ == self.credentials.0@,
            r.credentials.1@ == self.credentials.1@,
    {
        SoapClient {
            url: String::from_str("https://api.tigron.net/soap"),
            ns: String::from_str("https://www.tigron.net/ns/"),
            credentials: (self.credentials.0.clone(), self.credentials.1.clone()),
        }
    }

    /// The first request of a send: `user.info` with no parameters.
    pub fn user_info_request(&self) -> (r: SoapRequest)
        ensures
            r.url@ == spec_url(spec_base_url(), "user"@),
            r.body@ == spec_envelope(
                spec_namespace(),
                self.credentials.0@,
                self.credentials.1@,
                spec_procedure("info"@, spec_namespace(), Seq::empty()),
            ),
    {
        let client = self.soap_client();
        client.request("user", "info", &None)
    }

    /// The second request of a send: `sms.send_sms` with `user_id`,
    /// `from`, `to`, `message`, in that order.
    pub fn send_sms_request(&self, user_id: &str, from: &str, to: &str, message: &str) -> (r: SoapRequest)
        ensures
            r.url@ == spec_url(spec_base_url(), "sms"@),
            r.body@ == spec_envelope(
                spec_namespace(),
                self.credentials.0@,
                self.credentials.1@,
                spec_procedure(
                    "send_sms"@,
                    spec_namespace(),
                    spec_send_params(user_id@, from@, to@, message@),
                ),
            ),
    {
        let client = self.soap_client();
        let mut ps: Vec<(String, String)> = Vec::new();
        ps.push((String::from_str("user_id"), String::from_str(user_id)));
        ps.push((String::from_str("from"), String::from_str(from)));
        ps.push((String::from_str("to"), String::from_str(to)));
        ps.push((String::from_str("message"), String::from_str(message)));
        proof {
            assert(pairs_view(ps@) =~= spec_send_params(user_id@, from@, to@, message@));
        }
        client.request("sms", "send_sms", &Some(ps))
    }

    /// The authenticated user identifier in a `user.info` response
    /// body. An empty result means the response carried no `id`, or an
    /// empty one; the send flow proceeds with it either way, as the
    /// upstream convention has it.
    pub fn user_id_from_response(body: &str) -> (r: String)
        ensures
            r@ == spec_user_id(body@),
    {
        let items = parse(body);
        value(&items, "id")
    }
}

/// Both bodies of a send carry exactly one authentication element:
/// the tag starts right after the fixed envelope prefix and nowhere
/// else — as long as the credentials and the caller's fields hold no
/// `<`, which verbatim substitution cannot survive anyway.
pub proof fn lemma_send_bodies_one_auth(username: Seq<char>, password: Seq<char>, user_id: Seq<char>, from: Seq<char>, to: Seq<char>, message: Seq<char>)
    requires
        no_angle(username),
        no_angle(password),
        no_angle(user_id),
        no_angle(from),
        no_angle(to),
        no_angle(message),
    ensures
        ({
            let info_body = spec_envelope(
                spec_namespace(),
                username,
                password,
                spec_procedure("info"@, spec_namespace(), Seq::empty()),
            );
            &&& tag_at(info_body, spec_envelope_pre().len() as int)
            &&& forall|i: int| #[trigger] tag_at(info_body, i) ==> i == spec_envelope_pre().len()
        }),
        ({
            let sms_body = spec_envelope(
                spec_namespace(),
                username,
                password,
                spec_procedure(
                    "send_sms"@,
                    spec_namespace(),
                    spec_send_params(user_id, from, to, message),
                ),
            );
            &&& tag_at(sms_body, spec_envelope_pre().len() as int)
            &&& forall|i: int| #[trigger] tag_at(sms_body, i) ==> i == spec_envelope_pre().len()
        }),
{
    reveal_strlit("https://www.tigron.net/ns/");
    reveal_strlit("info");
    reveal_strlit("send_sms");
    reveal_strlit("user_id");
    reveal_strlit("from");
    reveal_strlit("to");
    reveal_strlit("message");
    assert(no_angle(spec_namespace()));
    assert(no_angle("info"@) && !has_auth_prefix("info"@));
    assert(no_angle("send_sms"@) && !has_auth_prefix("send_sms"@));
    lemma_request_body_one_auth(spec_namespace(), username, password, "info"@, Seq::empty());
    let params = spec_send_params(user_id, from, to, message);
    assert forall|k: int| 0 <= k < params.len() implies no_angle(#[trigger] params[k].0)
        && !has_auth_prefix(params[k].0) && no_angle(params[k].1) by {
        assert(params[0] == ("user_id"@, user_id));
        assert(params[1] == ("from"@, from));
        assert(params[2] == ("to"@, to));
        assert(params[3] == ("message"@, message));
        assert(no_angle("user_id"@) && !has_auth_prefix("user_id"@));
        assert(no_angle("from"@) && !has_auth_prefix("from"@));
        assert(no_angle("to"@) && !has_auth_prefix("to"@));
        assert(no_angle("message"@) && !has_auth_prefix("message"@));
    }
    lemma_request_body_one_auth(spec_namespace(), username, password, "send_sms"@, params);
}

/// Where a send stands.
#[derive(Clone, Copy)]
pub enum SendPhase {
    /// The `user.info` request is outstanding.
    Authenticating,
    /// The `sms.send_sms` request is outstanding.
    Sending,
    /// The second response arrived; the send is complete.
    Done,
}

/// One in-flight send. The transport performs each `SoapRequest` this
/// hands out and feeds the response body to `on_response`.
pub struct SendFlow {
    /// The facade the send was started from.
    pub sms: TigronSms,
    /// Destination number.
    pub to: String,
    /// Sender identifier.
    pub from: String,
    /// Message body.
    pub message: String,
    /// Where the send stands.
    pub phase: SendPhase,
}

impl SendFlow {
    /// Begins a send: the flow, and the `user.info` request to perform
    /// first.
    pub fn begin(sms: &TigronSms, to: String, from: String, message: String) -> (r: (SendFlow, SoapRequest))
        ensures
            r.0.phase is Authenticating,
            r.0.to@ == to@,
            r.0.from@ == from@,
            r.0.message@ == message@,
            r.0.sms.credentials.0@ == sms.credentials.0@,
            r.0.sms.credentials.1@ == sms.credentials.1@,
            r.1.url@ == spec_url(spec_base_url(), "user"@),
            r.1.body@ == spec_envelope(
                spec_namespace(),
                sms.credentials.0@,
                sms.credentials.1@,
                spec_procedure("info"@, spec_namespace(), Seq::empty()),
            ),
    {
        let request = sms.user_info_request();
        let flow = SendFlow {
            sms: TigronSms { credentials: (sms.credentials.0.clone(), sms.credentials.1.clone()) },
            to,
            from,
            message,
            phase: SendPhase::Authenticating,
        };
        (flow, request)
    }

    /// Feeds the response body of the outstanding request. While
    /// authenticating, the `id` is read out of the response and the
    /// `sms.send_sms` request comes back, with `user_id`, `from`, `to`,
    /// `message` in that order; once that response arrives the flow is
    /// done and nothing follows.
    pub fn on_response(&mut self, body: &str) -> (r: Option<SoapRequest>)
        ensures
            final(self).sms == old(self).sms,
            final(self).to == old(self).to,
            final(self).from == old(self).from,
            final(self).message == old(self).message,
            old(self).phase is Authenticating ==> {
                &&& final(self).phase is Sending
                &&& r matches Some(req)
                    && req.url@ == spec_url(spec_base_url(), "sms"@)
                    && req.body@ == spec_envelope(
                        spec_namespace(),
                        old(self).sms.credentials.0@,
                        old(self).sms.credentials.1@,
                        spec_procedure(
                            "send_sms"@,
                            spec_namespace(),
                            spec_send_params(
                                spec_user_id(body@),
                                old(self).from@,
                                old(self).to@,
                                old(self).message@,
                            ),
                        ),
                    )
            },
            old(self).phase is Sending ==> final(self).phase is Done && r is None,
            old(self).phase is Done ==> final(self).phase is Done && r is None,
    {
        match self.phase {
            SendPhase::Authenticating => {
                let user_id = TigronSms::user_id_from_response(body);
                let request = self.sms.send_sms_request(
                    user_id.as_str(),
                    self.from.as_str(),
                    self.to.as_str(),
                    self.message.as_str(),
                );
                self.phase = SendPhase::Sending;
                Some(request)
            },
            SendPhase::Sending => {
                self.phase = SendPhase::Done;
                None
            },
            SendPhase::Done => None,
        }
    }
}

} // verus!

//! The SOAP client: renders a procedure call into the request envelope
//! and the endpoint URL. Parameter values, credentials and the
//! namespace are substituted verbatim, without XML escaping, which is
//! this API's (questionable) convention; callers that need safety must
//! escape beforehand.

use vstd::prelude::*;
use vstd::string::StringExecFns;
use crate::reader::pairs_view;

verus! {

/// `<name>body</name>`
pub open spec fn spec_element(name: Seq<char>, body: Seq<char>) -> Seq<char> {
    "<"@ + name + ">"@ + body + "</"@ + name + ">"@
}

/// The parameter elements, concatenated in input order with no
/// separators.
pub open spec fn spec_params_xml(params: Seq<(Seq<char>, Seq<char>)>) -> Seq<char>
    decreases params.len(),
{
    if params.len() == 0 {
        Seq::empty()
    } else {
        spec_element(params[0].0, params[0].1) + spec_params_xml(params.drop_first())
    }
}

/// The procedure element: the command as local name, the namespace as
/// default namespace, the parameters as children.
pub open spec fn spec_procedure(cmd: Seq<char>, ns: Seq<char>, params: Seq<(Seq<char>, Seq<char>)>) -> Seq<char> {
    "<"@ + cmd + " xmlns=\""@ + ns + "\">"@ + spec_params_xml(params) + "</"@ + cmd + ">"@
}

/// The authentication header element carrying the credentials.
pub open spec fn spec_auth_header(ns: Seq<char>, username: Seq<char>, password: Seq<char>) -> Seq<char> {
    "<authenticate_user xmlns=\""@ + ns + "\">"@ + spec_element("username"@, username)
        + spec_element("password"@, password) + "</authenticate_user>"@
}

/// The fixed text before the authentication header.
pub open spec fn spec_envelope_pre() -> Seq<char> {
    "<?xml version=\"1.0\"?><soap:Envelope xmlns:soap=\"http://schemas.xmlsoap.org/soap/envelope/\" soap:encodingStyle=\"http://www.w3.org/2003/05/soap-encoding\"><soap:Header>"@
}

/// The fixed text between the header and the procedure element.
pub open spec fn spec_envelope_mid() -> Seq<char> {
    "</soap:Header><soap:Body>"@
}

/// The fixed text after the procedure element.
pub open spec fn spec_envelope_post() -> Seq<char> {
    "</soap:Body></soap:Envelope>"@
}

/// The whole envelope around a rendered procedure element.
pub open spec fn spec_envelope(ns: Seq<char>, username: Seq<char>, password: Seq<char>, procedure: Seq<char>) -> Seq<char> {
    spec_envelope_pre() + spec_auth_header(ns, username, password) + spec_envelope_mid()
        + procedure + spec_envelope_post()
}

/// The per-service endpoint: `{base}/{service}?WSDL`.
pub open spec fn spec_url(base: Seq<char>, service: Seq<char>) -> Seq<char> {
    base + "/"@ + service + "?WSDL"@
}

/// The parameters of an optional list; absent means empty.
pub open spec fn spec_opt_pairs(params: Option<Vec<(String, String)>>) -> Seq<(Seq<char>, Seq<char>)> {
    match params {
        Some(ps) => pairs_view(ps@),
        None => Seq::empty(),
    }
}

/// One rendered request: where to POST and what body to send.
pub struct SoapRequest {
    /// The endpoint URL.
    pub url: String,
    /// The envelope to send as the request body.
    pub body: String,
}

/// The SOAP client's configuration.
pub struct SoapClient {
    /// The base service URL.
    pub url: String,
    /// The XML namespace applied to the header and procedure elements.
    pub ns: String,
    /// The (username, password) pair.
    pub credentials: (String, String),
}

/// Appends `<name>body</name>` to `out`.
fn append_element(out: &mut String, name: &str, body: &str)
    ensures
        final(out)@ == old(out)@ + spec_element(name@, body@),
{
    out.append("<");
    out.append(name);
    out.append(">");
    out.append(body);
    out.append("</");
    out.append(name);
    out.append(">");
    proof {
        assert(final(out)@ =~= old(out)@ + spec_element(name@, body@));
    }
}

impl SoapClient {
    /// Renders the procedure element for a command and its parameters,
    /// children in input order.
    pub fn cmd_and_params_to_wsdl(&self, cmd: &str, params: &Vec<(String, String)>) -> (r: String)
        ensures
            r@ == spec_procedure(cmd@, self.ns@, pairs_view(params@)),
    {
        let mut inner = String::new();
        let mut i: usize = 0;
        proof {
            assert(pairs_view(params@).take(0) =~= Seq::<(Seq<char>, Seq<char>)>::empty());
        }
        while i < params.len()
            invariant
                i <= params.len(),
                inner@ == spec_params_xml(pairs_view(params@).take(i as int)),
            decreases params.len() - i,
        {
            append_element(&mut inner, params[i].0.as_str(), params[i].1.as_str());
            proof {
                lemma_params_xml_push(pairs_view(params@).take(i as int), pairs_view(params@)[i as int]);
                assert(pairs_view(params@).take(i as int + 1)
                    =~= pairs_view(params@).take(i as int).push(pairs_view(params@)[i as int]));
                assert(pairs_view(params@)[i as int] == (params@[i as int].0@, params@[i as int].1@));
            }
            i = i + 1;
        }
        proof {
            assert(pairs_view(params@).take(params@.len() as int) =~= pairs_view(params@));
        }
        let mut r = String::from_str("<");
        r.append(cmd);
        r.append(" xmlns=\"");
        r.append(self.ns.as_str());
        r.append("\">");
        r.append(inner.as_str());
        r.append("</");
        r.append(cmd);
        r.append(">");
        proof {
            assert(r@ =~= spec_procedure(cmd@, self.ns@, pairs_view(params@)));
        }
        r
    }

    /// Wraps a rendered procedure element in the envelope, with the
    /// authentication header carrying this client's credentials.
    pub fn soap_body(&self, cmd_xml: &str) -> (r: String)
        ensures
            r@ == spec_envelope(self.ns@, self.credentials.0@, self.credentials.1@, cmd_xml@),
    {
        let mut r = String::from_str(
            "<?xml version=\"1.0\"?><soap:Envelope xmlns:soap=\"http://schemas.xmlsoap.org/soap/envelope/\" soap:encodingStyle=\"http://www.w3.org/2003/05/soap-encoding\"><soap:Header>",
        );
        r.append("<authenticate_user xmlns=\"");
        r.append(self.ns.as_str());
        r.append("\">");
        append_element(&mut r, "username", self.credentials.0.as_str());
        append_element(&mut r, "password", self.credentials.1.as_str());
        r.append("</authenticate_user>");
        r.append("</soap:Header><soap:Body>");
        r.append(cmd_xml);
        r.append("</soap:Body></soap:Envelope>");
        proof {
            assert(r@ =~= spec_envelope(self.ns@, self.credentials.0@, self.credentials.1@, cmd_xml@));
        }
        r
    }

    /// Renders one procedure call: the endpoint URL `{url}/{service}?WSDL`
    /// and the enveloped body. Performing the POST is the caller's
    /// transport concern; the response body comes back to the reader.
    pub fn request(&self, service: &str, cmd: &str, params: &Option<Vec<(String, String)>>) -> (r: SoapRequest)
        ensures
            r.url@ == spec_url(self.url@, service@),
            r.body@ == spec_envelope(
                self.ns@,
                self.credentials.0@,
                self.credentials.1@,
                spec_procedure(cmd@, self.ns@, spec_opt_pairs(*params)),
            ),
    {
        let empty: Vec<(String, String)> = Vec::new();
        let ps: &Vec<(String, String)> = match params {
            Some(ps) => ps,
            None => &empty,
        };
        proof {
            assert(pairs_view(empty@) =~= Seq::<(Seq<char>, Seq<char>)>::empty());
        }
        let cmd_xml = self.cmd_and_params_to_wsdl(cmd, ps);
        let body = self.soap_body(cmd_xml.as_str());
        let mut url = self.url.clone();
        url.append("/");
        url.append(service);
        url.append("?WSDL");
        proof {
            assert(url@ =~= spec_url(self.url@, service@));
        }
        SoapRequest { url, body }
    }
}

/// One rendered response item: `<item><key>k</key><value>v</value></item>`.
pub open spec fn spec_item(k: Seq<char>, v: Seq<char>) -> Seq<char> {
    spec_element("item"@, spec_element("key"@, k) + spec_element("value"@, v))
}

/// The rendered items of a pair list, in order.
pub open spec fn spec_items_xml(pairs: Seq<(Seq<char>, Seq<char>)>) -> Seq<char>
    decreases pairs.len(),
{
    if pairs.len() == 0 {
        Seq::empty()
    } else {
        spec_item(pairs[0].0, pairs[0].1) + spec_items_xml(pairs.drop_first())
    }
}

/// A pair list rendered in the response shape, inside the `return`
/// wrapper.
pub open spec fn spec_rendered_response(pairs: Seq<(Seq<char>, Seq<char>)>) -> Seq<char> {
    spec_element("return"@, spec_items_xml(pairs))
}

/// Renders a pair list in the response shape the reader reads back.
pub fn render_items(pairs: &Vec<(String, String)>) -> (r: String)
    ensures
        r@ == spec_rendered_response(pairs_view(pairs@)),
{
    let mut inner = String::new();
    let mut i: usize = 0;
    proof {
        assert(pairs_view(pairs@).take(0) =~= Seq::<(Seq<char>, Seq<char>)>::empty());
    }
    while i < pairs.len()
        invariant
            i <= pairs.len(),
            inner@ == spec_items_xml(pairs_view(pairs@).take(i as int)),
        decreases pairs.len() - i,
    {
        let mut item_body = String::new();
        append_element(&mut item_body, "key", pairs[i].0.as_str());
        append_element(&mut item_body, "value", pairs[i].1.as_str());
        append_element(&mut inner, "item", item_body.as_str());
        proof {
            lemma_items_xml_push(pairs_view(pairs@).take(i as int), pairs_view(pairs@)[i as int]);
            assert(pairs_view(pairs@).take(i as int + 1)
                =~= pairs_view(pairs@).take(i as int).push(pairs_view(pairs@)[i as int]));
            assert(pairs_view(pairs@)[i as int] == (pairs@[i as int].0@, pairs@[i as int].1@));
            assert(item_body@ =~= spec_element("key"@, pairs@[i as int].0@) + spec_element(
                "value"@, pairs@[i as int].1@));
        }
        i = i + 1;
    }
    proof {
        assert(pairs_view(pairs@).take(pairs@.len() as int) =~= pairs_view(pairs@));
    }
    let mut r = String::new();
    append_element(&mut r, "return", inner.as_str());
    proof {
        assert(r@ =~= spec_rendered_response(pairs_view(pairs@)));
    }
    r
}

/// Appending one pair extends the rendered items by its item.
pub proof fn lemma_items_xml_push(pairs: Seq<(Seq<char>, Seq<char>)>, p: (Seq<char>, Seq<char>))
    ensures
        spec_items_xml(pairs.push(p)) == spec_items_xml(pairs) + spec_item(p.0, p.1),
    decreases pairs.len(),
{
    if pairs.len() == 0 {
        assert(pairs.push(p).drop_first() =~= Seq::<(Seq<char>, Seq<char>)>::empty());
        assert(pairs.push(p)[0] == p);
        assert(spec_items_xml(Seq::<(Seq<char>, Seq<char>)>::empty()) == Seq::<char>::empty());
        assert(spec_items_xml(pairs) + spec_item(p.0, p.1) =~= spec_item(p.0, p.1));
        assert(spec_items_xml(pairs.push(p)) =~= spec_item(p.0, p.1) + Seq::<char>::empty());
        assert(spec_item(p.0, p.1) + Seq::<char>::empty() =~= spec_item(p.0, p.1));
    } else {
        assert(pairs.push(p).drop_first() =~= pairs.drop_first().push(p));
        lemma_items_xml_push(pairs.drop_first(), p);
        assert(spec_items_xml(pairs.push(p)) =~= spec_items_xml(pairs) + spec_item(p.0, p.1));
    }
}

/// Every envelope splits into fixed framing around the authentication
/// header written for it, whose `username` and `password` children
/// carry the configured credentials verbatim: the header stands at a
/// fixed offset, between text that is independent of the credentials
/// and of the procedure.
pub proof fn lemma_envelope_carries_auth(ns: Seq<char>, username: Seq<char>, password: Seq<char>, procedure: Seq<char>)
    ensures
        ({
            let env = spec_envelope(ns, username, password, procedure);
            let auth = spec_auth_header(ns, username, password);
            let pre = spec_envelope_pre();
            &&& env.subrange(pre.len() as int, pre.len() + auth.len() as int) == auth
            &&& auth == "<authenticate_user xmlns=\""@ + ns + "\">"@ + "<username>"@ + username
                + "</username>"@ + "<password>"@ + password + "</password>"@
                + "</authenticate_user>"@
        }),
{
    reveal_strlit("<");
    reveal_strlit(">");
    reveal_strlit("</");
    reveal_strlit("username");
    reveal_strlit("password");
    reveal_strlit("<username>");
    reveal_strlit("</username>");
    reveal_strlit("<password>");
    reveal_strlit("</password>");
    let env = spec_envelope(ns, username, password, procedure);
    let auth = spec_auth_header(ns, username, password);
    let pre = spec_envelope_pre();
    assert(env.subrange(pre.len() as int, pre.len() + auth.len() as int) =~= auth);
    assert(auth =~= "<authenticate_user xmlns=\""@ + ns + "\">"@ + "<username>"@ + username
        + "</username>"@ + "<password>"@ + password + "</password>"@ + "</authenticate_user>"@);
}

/// The text that opens an authentication header element.
pub open spec fn auth_tag() -> Seq<char> {
    "<authenticate_user"@
}

/// The authentication tag starts at offset `i` of `s`.
pub open spec fn tag_at(s: Seq<char>, i: int) -> bool {
    0 <= i && i + auth_tag().len() <= s.len() && s.subrange(i, i + auth_tag().len() as int)
        == auth_tag()
}

/// `s` holds no `<` at all.
pub open spec fn no_angle(s: Seq<char>) -> bool {
    forall|i: int| 0 <= i < s.len() ==> s[i] != '<'
}

/// The authentication tag starts nowhere in `s`.
pub open spec fn no_auth_tag_within(s: Seq<char>) -> bool {
    forall|j: int| !tag_at(s, j)
}

/// `s` begins with the authentication element's name.
pub open spec fn has_auth_prefix(s: Seq<char>) -> bool {
    s.len() >= 17 && s.subrange(0, 17) == "authenticate_user"@
}

/// The authentication tag opens the header the envelope was built
/// with: it stands right after the fixed prefix.
pub proof fn lemma_envelope_tag_at_header(ns: Seq<char>, username: Seq<char>, password: Seq<char>, procedure: Seq<char>)
    ensures
        tag_at(
            spec_envelope(ns, username, password, procedure),
            spec_envelope_pre().len() as int,
        ),
{
    reveal_strlit("<authenticate_user");
    reveal_strlit("<authenticate_user xmlns=\"");
    reveal_strlit("<?xml version=\"1.0\"?><soap:Envelope xmlns:soap=\"http://schemas.xmlsoap.org/soap/envelope/\" soap:encodingStyle=\"http://www.w3.org/2003/05/soap-encoding\"><soap:Header>");
    let env = spec_envelope(ns, username, password, procedure);
    let pre = spec_envelope_pre();
    assert(env.subrange(pre.len() as int, pre.len() + auth_tag().len() as int) =~= auth_tag());
}

/// The authentication tag starts nowhere in the envelope but at the
/// header written for it, as long as the substituted namespace and
/// credentials hold no `<` and the procedure text does not itself
/// start the tag anywhere.
#[verifier::rlimit(100)]
pub proof fn lemma_auth_tag_unique(ns: Seq<char>, username: Seq<char>, password: Seq<char>, procedure: Seq<char>, i: int)
    requires
        no_angle(ns),
        no_angle(username),
        no_angle(password),
        no_auth_tag_within(procedure),
        tag_at(spec_envelope(ns, username, password, procedure), i),
    ensures
        i == spec_envelope_pre().len(),
{
    reveal_strlit("<authenticate_user");
    reveal_strlit("authenticate_user");
    reveal_strlit("<?xml version=\"1.0\"?><soap:Envelope xmlns:soap=\"http://schemas.xmlsoap.org/soap/envelope/\" soap:encodingStyle=\"http://www.w3.org/2003/05/soap-encoding\"><soap:Header>");
    reveal_strlit("<authenticate_user xmlns=\"");
    reveal_strlit("\">");
    reveal_strlit("<username>");
    reveal_strlit("</username>");
    reveal_strlit("<password>");
    reveal_strlit("</password>");
    reveal_strlit("</authenticate_user>");
    reveal_strlit("</soap:Header><soap:Body>");
    reveal_strlit("</soap:Body></soap:Envelope>");
    lemma_envelope_carries_auth(ns, username, password, procedure);
    let env = spec_envelope(ns, username, password, procedure);
    let pre = spec_envelope_pre();
    let a = "<authenticate_user xmlns=\""@;
    let b = "\">"@;
    let u1 = "<username>"@;
    let u2 = "</username>"@;
    let p1 = "<password>"@;
    let p2 = "</password>"@;
    let c = "</authenticate_user>"@;
    let mid = spec_envelope_mid();
    let post = spec_envelope_post();
    let tag = auth_tag();
    assert(pre.len() == 165 && a.len() == 26 && tag.len() == 18);
    let flat = pre + (a + (ns + (b + (u1 + (username + (u2 + (p1 + (password + (p2 + (c + (mid
        + (procedure + post))))))))))));
    assert(env =~= flat);
    let o1 = 165int;
    let o2 = o1 + 26;
    let o3 = o2 + ns.len() as int;
    let o4 = o3 + 2;
    let o5 = o4 + 10;
    let o6 = o5 + username.len() as int;
    let o7 = o6 + 11;
    let o8 = o7 + 10;
    let o9 = o8 + password.len() as int;
    let o10 = o9 + 11;
    let o11 = o10 + 20;
    let o12 = o11 + 25;
    let o13 = o12 + procedure.len() as int;
    assert(env.len() == o13 + 28);
    assert(forall|m: int| 0 <= m < 18 ==> #[trigger] env[i + m] == tag[m]) by {
        assert(forall|m: int| 0 <= m < 18 ==> #[trigger] env.subrange(i, i + 18)[m] == tag[m]);
    }
    assert(env[i + 0] == tag[0] && env[i + 1] == tag[1]);
    assert(env[i] == '<' && tag[1] == 'a');
    assert(forall|m: int| 1 <= m < 18 ==> #[trigger] tag[m] != '<');
    if i < o1 {
        assert(pre[i] == '<');
        assert(forall|j: int| 0 <= j < 165 && #[trigger] pre[j] == '<' ==> j == 0 || j == 21 || j == 152);
        assert(env[i + 1] == pre[i + 1]);
        assert(pre[1] == '?' && pre[22] == 's' && pre[153] == 's');
        assert(false);
    } else if i == o1 {
    } else if i < o2 {
        assert(env[i] == a[i - o1]);
        assert(forall|j: int| 0 <= j < 26 && #[trigger] a[j] == '<' ==> j == 0);
        assert(false);
    } else if i < o3 {
        assert(env[i] == ns[i - o2]);
        assert(false);
    } else if i < o4 {
        assert(env[i] == b[i - o3]);
        assert(b[0] == '"' && b[1] == '>');
        assert(false);
    } else if i < o5 {
        assert(env[i] == u1[i - o4]);
        assert(forall|j: int| 0 <= j < 10 && #[trigger] u1[j] == '<' ==> j == 0);
        assert(env[i + 1] == u1[1] && u1[1] == 'u');
        assert(false);
    } else if i < o6 {
        assert(env[i] == username[i - o5]);
        assert(false);
    } else if i < o7 {
        assert(env[i] == u2[i - o6]);
        assert(forall|j: int| 0 <= j < 11 && #[trigger] u2[j] == '<' ==> j == 0);
        assert(env[i + 1] == u2[1] && u2[1] == '/');
        assert(false);
    } else if i < o8 {
        assert(env[i] == p1[i - o7]);
        assert(forall|j: int| 0 <= j < 10 && #[trigger] p1[j] == '<' ==> j == 0);
        assert(env[i + 1] == p1[1] && p1[1] == 'p');
        assert(false);
    } else if i < o9 {
        assert(env[i] == password[i - o8]);
        assert(false);
    } else if i < o10 {
        assert(env[i] == p2[i - o9]);
        assert(forall|j: int| 0 <= j < 11 && #[trigger] p2[j] == '<' ==> j == 0);
        assert(env[i + 1] == p2[1] && p2[1] == '/');
        assert(false);
    } else if i < o11 {
        assert(env[i] == c[i - o10]);
        assert(forall|j: int| 0 <= j < 20 && #[trigger] c[j] == '<' ==> j == 0);
        assert(env[i + 1] == c[1] && c[1] == '/');
        assert(false);
    } else if i < o12 {
        assert(env[i] == mid[i - o11]);
        assert(forall|j: int| 0 <= j < 25 && #[trigger] mid[j] == '<' ==> j == 0 || j == 14);
        assert(env[i + 1] == mid[i - o11 + 1]);
        assert(mid[1] == '/' && mid[15] == 's');
        assert(false);
    } else if i < o13 {
        let j = i - o12;
        assert(env[i] == procedure[j]);
        if j + 18 <= procedure.len() {
            assert(procedure.subrange(j, j + 18) =~= tag) by {
                assert(forall|m: int| 0 <= m < 18 ==> #[trigger] procedure.subrange(j, j + 18)[m]
                    == env[i + m]);
            }
            assert(tag_at(procedure, j));
            assert(false);
        } else {
            let m = procedure.len() - j;
            assert(1 <= m < 18);
            assert(env[i + m] == tag[m]);
            assert(tag[m] != '<');
            assert(env[i + m] == post[0]);
            assert(post[0] == '<');
            assert(false);
        }
    } else {
        let j = i - o13;
        assert(env[i] == post[j]);
        assert(forall|k: int| 0 <= k < 28 && #[trigger] post[k] == '<' ==> k == 0 || k == 12);
        assert(j + 18 <= 28);
        assert(env[i + 1] == post[1] && post[1] == '/');
        assert(false);
    }
}

/// Rendered parameters never start the authentication tag, as long as
/// no name or value holds a `<` and no name begins with the
/// authentication element's name; nor does anything they are rendered
/// in front of.
proof fn lemma_params_no_tag(params: Seq<(Seq<char>, Seq<char>)>, t: Seq<char>)
    requires
        forall|k: int| 0 <= k < params.len() ==> no_angle(#[trigger] params[k].0)
            && !has_auth_prefix(params[k].0) && no_angle(params[k].1),
        no_auth_tag_within(t),
    ensures
        no_auth_tag_within(spec_params_xml(params) + t),
    decreases params.len(),
{
    reveal_strlit("<authenticate_user");
    reveal_strlit("authenticate_user");
    reveal_strlit("<");
    reveal_strlit(">");
    reveal_strlit("</");
    let tag = auth_tag();
    assert(tag.len() == 18 && tag[0] == '<' && tag[1] == 'a');
    assert(forall|m: int| 1 <= m < 18 ==> #[trigger] tag[m] != '>' && tag[m] != '<');
    assert(forall|m2: int| 0 <= m2 < 17 ==> #[trigger] "authenticate_user"@[m2] == tag[m2 + 1]);
    if params.len() == 0 {
        assert(spec_params_xml(params) + t =~= t);
    } else {
        lemma_params_no_tag(params.drop_first(), t);
        let k0 = params[0].0;
        let v0 = params[0].1;
        let item = spec_element(k0, v0);
        let rest = spec_params_xml(params.drop_first()) + t;
        let s = item + rest;
        assert(spec_params_xml(params) + t =~= s);
        let q4 = 1 + k0.len() as int + 1 + v0.len() as int;
        assert(item.len() == q4 + 2 + k0.len() + 1);
        assert forall|j: int| !tag_at(s, j) by {
            if tag_at(s, j) {
                assert(s[j + 0] == tag[0]) by {
                    assert(s.subrange(j, j + 18)[0] == tag[0]);
                }
                assert(s[j + 1] == tag[1]) by {
                    assert(s.subrange(j, j + 18)[1] == tag[1]);
                }
                if j < item.len() {
                    if j == 0 {
                        if k0.len() >= 17 {
                            assert(k0.subrange(0, 17) =~= "authenticate_user"@) by {
                                assert(forall|m2: int| 0 <= m2 < 17 ==> #[trigger] k0.subrange(
                                    0, 17)[m2] == s[j + (m2 + 1)]);
                                assert(forall|m2: int| 0 <= m2 < 17 ==> #[trigger] s.subrange(
                                    j, j + 18)[m2 + 1] == tag[m2 + 1]);
                            }
                            assert(has_auth_prefix(k0));
                            assert(false);
                        } else {
                            let w = 1 + k0.len() as int;
                            assert(s[j + w] == tag[w]) by {
                                assert(s.subrange(j, j + 18)[w] == tag[w]);
                            }
                            assert(s[j + w] == '>');
                            assert(false);
                        }
                    } else if j == q4 {
                        assert(s[j + 1] == '/');
                        assert(false);
                    } else {
                        assert(s[j + 0] != '<');
                        assert(false);
                    }
                } else {
                    let j2 = j - item.len() as int;
                    assert(tag_at(rest, j2)) by {
                        assert(rest.subrange(j2, j2 + 18) =~= tag) by {
                            assert(forall|m: int| 0 <= m < 18 ==> #[trigger] rest.subrange(
                                j2, j2 + 18)[m] == s[j + m]);
                            assert(forall|m: int| 0 <= m < 18 ==> #[trigger] s.subrange(j, j
                                + 18)[m] == tag[m]);
                        }
                    }
                    assert(false);
                }
            }
        }
    }
}

/// A rendered procedure element never starts the authentication tag:
/// its command is not the authentication element's name, its names and
/// values hold no `<`.
pub proof fn lemma_procedure_no_tag(cmd: Seq<char>, ns: Seq<char>, params: Seq<(Seq<char>, Seq<char>)>)
    requires
        no_angle(cmd),
        !has_auth_prefix(cmd),
        no_angle(ns),
        forall|k: int| 0 <= k < params.len() ==> no_angle(#[trigger] params[k].0)
            && !has_auth_prefix(params[k].0) && no_angle(params[k].1),
    ensures
        no_auth_tag_within(spec_procedure(cmd, ns, params)),
{
    reveal_strlit("<authenticate_user");
    reveal_strlit("authenticate_user");
    reveal_strlit("<");
    reveal_strlit(">");
    reveal_strlit("</");
    reveal_strlit(" xmlns=\"");
    reveal_strlit("\">");
    let tag = auth_tag();
    assert(tag.len() == 18 && tag[0] == '<' && tag[1] == 'a');
    assert(forall|m: int| 1 <= m < 18 ==> #[trigger] tag[m] != ' ' && tag[m] != '<');
    assert(forall|m2: int| 0 <= m2 < 17 ==> #[trigger] "authenticate_user"@[m2] == tag[m2 + 1]);
    let closer = "</"@ + cmd + ">"@;
    assert(no_auth_tag_within(closer)) by {
        assert forall|j: int| !tag_at(closer, j) by {
            if tag_at(closer, j) {
                assert(closer[j + 0] == tag[0]) by {
                    assert(closer.subrange(j, j + 18)[0] == tag[0]);
                }
                assert(closer[j + 1] == tag[1]) by {
                    assert(closer.subrange(j, j + 18)[1] == tag[1]);
                }
                assert(j == 0);
                assert(closer[1] == '/');
                assert(false);
            }
        }
    }
    lemma_params_no_tag(params, closer);
    let head = "<"@ + cmd + " xmlns=\""@ + ns + "\">"@;
    let rest = spec_params_xml(params) + closer;
    let s = head + rest;
    assert(spec_procedure(cmd, ns, params) =~= s);
    assert forall|j: int| !tag_at(s, j) by {
        if tag_at(s, j) {
            assert(s[j + 0] == tag[0]) by {
                assert(s.subrange(j, j + 18)[0] == tag[0]);
            }
            if j < head.len() {
                assert(j == 0);
                if cmd.len() >= 17 {
                    assert(cmd.subrange(0, 17) =~= "authenticate_user"@) by {
                        assert(forall|m2: int| 0 <= m2 < 17 ==> #[trigger] cmd.subrange(0,
                            17)[m2] == s[j + (m2 + 1)]);
                        assert(forall|m2: int| 0 <= m2 < 17 ==> #[trigger] s.subrange(j, j
                            + 18)[m2 + 1] == tag[m2 + 1]);
                    }
                    assert(has_auth_prefix(cmd));
                    assert(false);
                } else {
                    let w = 1 + cmd.len() as int;
                    assert(s[j + w] == tag[w]) by {
                        assert(s.subrange(j, j + 18)[w] == tag[w]);
                    }
                    assert(s[j + w] == ' ');
                    assert(false);
                }
            } else {
                let j2 = j - head.len() as int;
                assert(tag_at(rest, j2)) by {
                    assert(rest.subrange(j2, j2 + 18) =~= tag) by {
                        assert(forall|m: int| 0 <= m < 18 ==> #[trigger] rest.subrange(j2, j2
                            + 18)[m] == s[j + m]);
                        assert(forall|m: int| 0 <= m < 18 ==> #[trigger] s.subrange(j, j
                            + 18)[m] == tag[m]);
                    }
                }
                assert(false);
            }
        }
    }
}

/// Every rendered call carries exactly one authentication element:
/// the tag opens the header written for the configured credentials,
/// and starts nowhere else in the body — as long as nothing
/// substituted into the envelope holds a `<` and neither the command
/// nor a parameter name begins with the authentication element's name.
pub proof fn lemma_request_body_one_auth(ns: Seq<char>, username: Seq<char>, password: Seq<char>, cmd: Seq<char>, params: Seq<(Seq<char>, Seq<char>)>)
    requires
        no_angle(ns),
        no_angle(username),
        no_angle(password),
        no_angle(cmd),
        !has_auth_prefix(cmd),
        forall|k: int| 0 <= k < params.len() ==> no_angle(#[trigger] params[k].0)
            && !has_auth_prefix(params[k].0) && no_angle(params[k].1),
    ensures
        ({
            let body = spec_envelope(ns, username, password, spec_procedure(cmd, ns, params));
            &&& tag_at(body, spec_envelope_pre().len() as int)
            &&& forall|i: int| #[trigger] tag_at(body, i) ==> i == spec_envelope_pre().len()
        }),
{
    let procedure = spec_procedure(cmd, ns, params);
    let body = spec_envelope(ns, username, password, procedure);
    lemma_envelope_tag_at_header(ns, username, password, procedure);
    lemma_procedure_no_tag(cmd, ns, params);
    assert forall|i: int| #[trigger] tag_at(body, i) implies i == spec_envelope_pre().len() by {
        lemma_auth_tag_unique(ns, username, password, procedure, i);
    }
}

/// Appending one parameter extends the rendered list by its element.
pub proof fn lemma_params_xml_push(params: Seq<(Seq<char>, Seq<char>)>, p: (Seq<char>, Seq<char>))
    ensures
        spec_params_xml(params.push(p)) == spec_params_xml(params) + spec_element(p.0, p.1),
    decreases params.len(),
{
    if params.len() == 0 {
        assert(params.push(p).drop_first() =~= Seq::<(Seq<char>, Seq<char>)>::empty());
        assert(params.push(p)[0] == p);
        assert(spec_params_xml(Seq::<(Seq<char>, Seq<char>)>::empty()) == Seq::<char>::empty());
        assert(spec_params_xml(params) + spec_element(p.0, p.1) =~= spec_element(p.0, p.1));
        assert(spec_params_xml(params.push(p)) =~= spec_element(p.0, p.1) + Seq::<char>::empty());
        assert(spec_element(p.0, p.1) + Seq::<char>::empty() =~= spec_element(p.0, p.1));
    } else {
        assert(params.push(p).drop_first() =~= params.drop_first().push(p));
        lemma_params_xml_push(params.drop_first(), p);
        assert(spec_params_xml(params.push(p)) =~= spec_params_xml(params) + spec_element(p.0, p.1));
    }
}

} // verus!

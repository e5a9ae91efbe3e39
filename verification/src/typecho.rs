//! Publishing to Typecho: the calls of its MetaWeblog interface and the replies to them.

use vstd::prelude::*;

use crate::bytes::{lossy_text, utf8_lossy};
use crate::http::{
    header, headers_view, BodyView, Header, HttpMethod, HttpRequest, RequestBody, RequestView,
};
use crate::number::{decimal, to_decimal};
use crate::publishing::{
    base64, encode_base64, extract_xml_tag, extract_xml_value, html_of, is_success,
    markdown_to_html, status_is_success, xml_escape, xml_escaped, xml_tag, xml_value,
    TypechoConfig,
};
use crate::text::{blank, concat3, contains, contains_text, is_blank, push_text, trim, trim_of};

verus! {

// ---------------------------------------------------------------------------
// Calls
// ---------------------------------------------------------------------------

/// A value of a call that is a text.
pub open spec fn string_value(s: Seq<char>) -> Seq<char> {
    "<value><string>"@ + xml_escaped(s) + "</string></value>"@
}

/// A parameter of a call that is a text.
pub open spec fn string_param(s: Seq<char>) -> Seq<char> {
    "<param>"@ + string_value(s) + "</param>"@
}

/// A member of a structure in a call that is a text.
pub open spec fn string_member(name: Seq<char>, s: Seq<char>) -> Seq<char> {
    "<member><name>"@ + name + "</name>"@ + string_value(s) + "</member>"@
}

/// A call of a method with its parameters.
pub open spec fn method_call(method: Seq<char>, params: Seq<char>) -> Seq<char> {
    "<?xml version=\"1.0\" encoding=\"UTF-8\"?><methodCall><methodName>"@ + method
        + "</methodName><params>"@ + params + "</params></methodCall>"@
}

/// The call that makes or changes a post.
pub open spec fn post_call(
    method: Seq<char>,
    first_id: Seq<char>,
    username: Seq<char>,
    password: Seq<char>,
    title: Seq<char>,
    description: Seq<char>,
    publish: bool,
) -> Seq<char> {
    method_call(
        method,
        string_param(first_id) + string_param(username) + string_param(password)
            + "<param><value><struct>"@ + string_member("title"@, title) + string_member(
            "description"@,
            description,
        ) + "</struct></value></param><param><value><boolean>"@ + (if publish {
            "1"@
        } else {
            "0"@
        }) + "</boolean></value></param>"@,
    )
}

/// The call that makes a post.
pub open spec fn new_post_call(
    username: Seq<char>,
    password: Seq<char>,
    title: Seq<char>,
    description: Seq<char>,
    publish: bool,
) -> Seq<char> {
    post_call("metaWeblog.newPost"@, "0"@, username, password, title, description, publish)
}

/// The call that changes a post.
pub open spec fn edit_post_call(
    post_id: Seq<char>,
    username: Seq<char>,
    password: Seq<char>,
    title: Seq<char>,
    description: Seq<char>,
    publish: bool,
) -> Seq<char> {
    post_call("metaWeblog.editPost"@, post_id, username, password, title, description, publish)
}

/// The call that stores a file.
pub open spec fn media_call(
    username: Seq<char>,
    password: Seq<char>,
    file_name: Seq<char>,
    mime: Seq<char>,
    bytes: Seq<u8>,
) -> Seq<char> {
    method_call(
        "metaWeblog.newMediaObject"@,
        string_param("0"@) + string_param(username) + string_param(password)
            + "<param><value><struct>"@ + string_member("name"@, file_name) + string_member(
            "type"@,
            mime,
        ) + "<member><name>bits</name><value><base64>"@ + base64(bytes)
            + "</base64></value></member></struct></value></param>"@,
    )
}

/// The call that lists the blogs of a user.
pub open spec fn blogs_call(username: Seq<char>, password: Seq<char>) -> Seq<char> {
    method_call(
        "blogger.getUsersBlogs"@,
        string_param("0"@) + string_param(username) + string_param(password),
    )
}

fn push_string_value(out: &mut String, s: &str)
    ensures
        final(out)@ == old(out)@ + string_value(s@),
{
    let ghost before = out@;
    push_text(out, "<value><string>");
    push_text(out, &xml_escape(s));
    push_text(out, "</string></value>");
    assert(out@ =~= before + string_value(s@));
}

fn push_string_param(out: &mut String, s: &str)
    ensures
        final(out)@ == old(out)@ + string_param(s@),
{
    let ghost before = out@;
    push_text(out, "<param>");
    push_string_value(out, s);
    push_text(out, "</param>");
    assert(out@ =~= before + string_param(s@));
}

fn push_string_member(out: &mut String, name: &str, s: &str)
    ensures
        final(out)@ == old(out)@ + string_member(name@, s@),
{
    let ghost before = out@;
    push_text(out, "<member><name>");
    push_text(out, name);
    push_text(out, "</name>");
    push_string_value(out, s);
    push_text(out, "</member>");
    assert(out@ =~= before + string_member(name@, s@));
}

fn call_xml(method: &str, params: &str) -> (r: String)
    ensures
        r@ == method_call(method@, params@),
{
    let mut out = concat3(
        "<?xml version=\"1.0\" encoding=\"UTF-8\"?><methodCall><methodName>",
        method,
        "</methodName><params>",
    );
    push_text(&mut out, params);
    push_text(&mut out, "</params></methodCall>");
    out
}

fn metaweblog_post_xml(
    method: &str,
    first_id: &str,
    username: &str,
    password: &str,
    title: &str,
    description: &str,
    publish: bool,
) -> (r: String)
    ensures
        r@ == post_call(method@, first_id@, username@, password@, title@, description@, publish),
{
    let mut out = String::new();
    push_string_param(&mut out, first_id);
    assert(out@ =~= string_param(first_id@));
    push_string_param(&mut out, username);
    push_string_param(&mut out, password);
    push_text(&mut out, "<param><value><struct>");
    push_string_member(&mut out, "title", title);
    push_string_member(&mut out, "description", description);
    push_text(&mut out, "</struct></value></param><param><value><boolean>");
    push_text(
        &mut out,
        if publish {
            "1"
        } else {
            "0"
        },
    );
    push_text(&mut out, "</boolean></value></param>");
    call_xml(method, &out)
}

/// The call that makes a post.
pub fn metaweblog_new_post_xml(
    username: &str,
    password: &str,
    title: &str,
    description: &str,
    publish: bool,
) -> (r: String)
    ensures
        r@ == new_post_call(username@, password@, title@, description@, publish),
{
    metaweblog_post_xml(
        "metaWeblog.newPost",
        "0",
        username,
        password,
        title,
        description,
        publish,
    )
}

/// The call that changes a post.
pub fn metaweblog_edit_post_xml(
    post_id: &str,
    username: &str,
    password: &str,
    title: &str,
    description: &str,
    publish: bool,
) -> (r: String)
    ensures
        r@ == edit_post_call(post_id@, username@, password@, title@, description@, publish),
{
    metaweblog_post_xml(
        "metaWeblog.editPost",
        post_id,
        username,
        password,
        title,
        description,
        publish,
    )
}

/// The identifier of the post to change; none for a new post.
pub open spec fn post_to_edit(existing_id: Option<Seq<char>>) -> Option<Seq<char>> {
    match existing_id {
        Some(id) => if is_blank(id) {
            None
        } else {
            Some(id)
        },
        None => None,
    }
}

/// A request to Typecho.
pub open spec fn xml_request(url: Seq<char>, xml: Seq<char>) -> RequestView {
    RequestView {
        method: HttpMethod::Post,
        uri: url,
        headers: seq![("Content-Type"@, "text/xml; charset=utf-8"@)],
        body: BodyView::Text(xml),
    }
}

/// A request to Typecho.
pub fn typecho_request(url: &str, xml: String) -> (r: HttpRequest)
    ensures
        r@ == xml_request(url@, xml@),
{
    let mut headers: Vec<Header> = Vec::new();
    headers.push(header("Content-Type", "text/xml; charset=utf-8"));
    assert(headers_view(headers@) =~= seq![("Content-Type"@, "text/xml; charset=utf-8"@)]);
    HttpRequest {
        method: HttpMethod::Post,
        uri: url.to_owned(),
        headers,
        body: RequestBody::Text(xml),
    }
}

/// The call that publishes an article: it changes a post that exists already, and makes one that does
/// not.
pub open spec fn publish_call(
    config: TypechoConfig,
    title: Seq<char>,
    html: Seq<char>,
    existing_id: Option<Seq<char>>,
    publish: bool,
) -> Seq<char> {
    match post_to_edit(existing_id) {
        Some(id) => edit_post_call(id, config.username@, config.password@, title, html, publish),
        None => new_post_call(config.username@, config.password@, title, html, publish),
    }
}

/// The request that publishes an article whose HTML is known.
pub fn typecho_publish_html(
    config: &TypechoConfig,
    title: &str,
    html: &str,
    existing_id: Option<&str>,
    publish: bool,
) -> (r: HttpRequest)
    ensures
        r@ == xml_request(
            config.xmlrpc_url@,
            publish_call(
                *config,
                title@,
                html@,
                match existing_id {
                    Some(id) => Some(id@),
                    None => None,
                },
                publish,
            ),
        ),
{
    let editing = match existing_id {
        Some(id) => !blank(id),
        None => false,
    };
    let xml = if editing {
        metaweblog_edit_post_xml(
            existing_id.unwrap(),
            &config.username,
            &config.password,
            title,
            html,
            publish,
        )
    } else {
        metaweblog_new_post_xml(&config.username, &config.password, title, html, publish)
    };
    typecho_request(&config.xmlrpc_url, xml)
}

/// The request that publishes an article, as HTML.
pub open spec fn article_request(
    config: TypechoConfig,
    title: Seq<char>,
    markdown: Seq<char>,
    existing_id: Option<Seq<char>>,
    publish: bool,
) -> RequestView {
    xml_request(
        config.xmlrpc_url@,
        publish_call(config, title, html_of(markdown), existing_id, publish),
    )
}

/// The request that publishes an article, as HTML.
pub fn typecho_publish_request(
    config: &TypechoConfig,
    title: &str,
    markdown: &str,
    existing_id: Option<&str>,
    publish: bool,
) -> (r: HttpRequest)
    ensures
        r@ == article_request(
            *config,
            title@,
            markdown@,
            match existing_id {
                Some(id) => Some(id@),
                None => None,
            },
            publish,
        ),
{
    let html = markdown_to_html(markdown);
    typecho_publish_html(config, title, &html, existing_id, publish)
}

/// The request that stores a file.
pub open spec fn file_request(
    config: TypechoConfig,
    file_name: Seq<char>,
    mime: Seq<char>,
    bytes: Seq<u8>,
) -> RequestView {
    xml_request(
        config.xmlrpc_url@,
        media_call(config.username@, config.password@, file_name, mime, bytes),
    )
}

/// The request that stores a file.
pub fn typecho_media_request(config: &TypechoConfig, file_name: &str, mime: &str, bytes: &[u8]) -> (r:
    HttpRequest)
    ensures
        r@ == file_request(*config, file_name@, mime@, bytes@),
{
    let mut out = String::new();
    push_string_param(&mut out, "0");
    assert(out@ =~= string_param("0"@));
    push_string_param(&mut out, &config.username);
    push_string_param(&mut out, &config.password);
    push_text(&mut out, "<param><value><struct>");
    push_string_member(&mut out, "name", file_name);
    push_string_member(&mut out, "type", mime);
    push_text(&mut out, "<member><name>bits</name><value><base64>");
    push_text(&mut out, &encode_base64(bytes));
    push_text(&mut out, "</base64></value></member></struct></value></param>");
    typecho_request(&config.xmlrpc_url, call_xml("metaWeblog.newMediaObject", &out))
}

/// The request that tests a connection.
pub open spec fn blogs_request(config: TypechoConfig) -> RequestView {
    xml_request(config.xmlrpc_url@, blogs_call(config.username@, config.password@))
}

/// The request that tests a connection.
pub fn typecho_test_request(config: &TypechoConfig) -> (r: HttpRequest)
    ensures
        r@ == blogs_request(*config),
{
    let mut out = String::new();
    push_string_param(&mut out, "0");
    assert(out@ =~= string_param("0"@));
    push_string_param(&mut out, &config.username);
    push_string_param(&mut out, &config.password);
    typecho_request(&config.xmlrpc_url, call_xml("blogger.getUsersBlogs", &out))
}

// ---------------------------------------------------------------------------
// Replies
// ---------------------------------------------------------------------------

/// A message about a reply that refuses a call, with marks around the status.
pub open spec fn refusal(
    before: Seq<char>,
    status: u16,
    behind: Seq<char>,
    text: Seq<char>,
) -> Seq<char> {
    before + decimal(status as nat) + behind + trim_of(text)
}

fn refusal_text(before: &str, status: u16, behind: &str, text: &str) -> (r: String)
    ensures
        r@ == refusal(before@, status, behind@, text@),
{
    let mut out = concat3(before, &to_decimal(status as u64), behind);
    push_text(&mut out, &trim(text));
    out
}

/// What the reply to a publication says: the identifier of the post, or a message.
pub open spec fn publish_reply(status: u16, text: Seq<char>) -> Result<Seq<char>, Seq<char>> {
    if !is_success(status) {
        Err(refusal("Typecho 返回 HTTP "@, status, "："@, text))
    } else if contains_text(text, "<fault>"@) || contains_text(text, "<boolean>0</boolean>"@) {
        Err("Typecho XML-RPC 返回错误："@ + trim_of(text))
    } else {
        match xml_value(text) {
            Some(id) => Ok(id),
            None => Ok("已提交"@),
        }
    }
}

/// What the reply to a publication says, from its text.
pub fn typecho_publish_result(status: u16, text: &str) -> (r: Result<String, String>)
    ensures
        match r {
            Ok(id) => publish_reply(status, text@) == Ok::<Seq<char>, Seq<char>>(id@),
            Err(e) => publish_reply(status, text@) == Err::<Seq<char>, Seq<char>>(e@),
        },
{
    if !status_is_success(status) {
        return Err(refusal_text("Typecho 返回 HTTP ", status, "：", text));
    }
    if contains(text, "<fault>") || contains(text, "<boolean>0</boolean>") {
        return Err(crate::text::concat2("Typecho XML-RPC 返回错误：", &trim(text)));
    }
    match extract_xml_value(text) {
        Some(id) => Ok(id),
        None => Ok("已提交".to_owned()),
    }
}

/// What the reply to a publication says: the identifier of the post, or a message.
pub fn typecho_publish_reply(status: u16, body: &[u8]) -> (r: Result<String, String>)
    ensures
        match r {
            Ok(id) => publish_reply(status, lossy_text(body@)) == Ok::<Seq<char>, Seq<char>>(id@),
            Err(e) => publish_reply(status, lossy_text(body@)) == Err::<Seq<char>, Seq<char>>(e@),
        },
{
    typecho_publish_result(status, &utf8_lossy(body))
}

/// What the reply to the storing of a file says: its address, or a message.
pub open spec fn media_reply(status: u16, text: Seq<char>) -> Result<Seq<char>, Seq<char>> {
    if !is_success(status) {
        Err(refusal("Typecho media HTTP "@, status, ": "@, text))
    } else if contains_text(text, "<fault>"@) {
        Err("Typecho media XML-RPC error: "@ + trim_of(text))
    } else {
        match xml_tag(text, "string"@) {
            Some(url) => Ok(url),
            None => match xml_tag(text, "url"@) {
                Some(url) => Ok(url),
                None => Err("Typecho media upload returned no URL"@),
            },
        }
    }
}

/// What the reply to the storing of a file says, from its text.
pub fn typecho_media_result(status: u16, text: &str) -> (r: Result<String, String>)
    ensures
        match r {
            Ok(url) => media_reply(status, text@) == Ok::<Seq<char>, Seq<char>>(url@),
            Err(e) => media_reply(status, text@) == Err::<Seq<char>, Seq<char>>(e@),
        },
{
    if !status_is_success(status) {
        return Err(refusal_text("Typecho media HTTP ", status, ": ", text));
    }
    if contains(text, "<fault>") {
        return Err(crate::text::concat2("Typecho media XML-RPC error: ", &trim(text)));
    }
    if let Some(url) = extract_xml_tag(text, "string") {
        return Ok(url);
    }
    match extract_xml_tag(text, "url") {
        Some(url) => Ok(url),
        None => Err("Typecho media upload returned no URL".to_owned()),
    }
}

/// What the reply to the storing of a file says: its address, or a message.
pub fn typecho_media_reply(status: u16, body: &[u8]) -> (r: Result<String, String>)
    ensures
        match r {
            Ok(url) => media_reply(status, lossy_text(body@)) == Ok::<Seq<char>, Seq<char>>(url@),
            Err(e) => media_reply(status, lossy_text(body@)) == Err::<Seq<char>, Seq<char>>(e@),
        },
{
    typecho_media_result(status, &utf8_lossy(body))
}

/// What the reply to the test of a connection says: the name of a blog, or a message.
pub open spec fn test_reply(status: u16, text: Seq<char>) -> Result<Seq<char>, Seq<char>> {
    if !is_success(status) {
        Err(refusal("Typecho test HTTP "@, status, ": "@, text))
    } else if contains_text(text, "<fault>"@) {
        Err("Typecho test XML-RPC error: "@ + trim_of(text))
    } else {
        match xml_tag(text, "string"@) {
            Some(name) => Ok(name),
            None => Ok("Typecho"@),
        }
    }
}

/// What the reply to the test of a connection says, from its text.
pub fn typecho_test_result(status: u16, text: &str) -> (r: Result<String, String>)
    ensures
        match r {
            Ok(name) => test_reply(status, text@) == Ok::<Seq<char>, Seq<char>>(name@),
            Err(e) => test_reply(status, text@) == Err::<Seq<char>, Seq<char>>(e@),
        },
{
    if !status_is_success(status) {
        return Err(refusal_text("Typecho test HTTP ", status, ": ", text));
    }
    if contains(text, "<fault>") {
        return Err(crate::text::concat2("Typecho test XML-RPC error: ", &trim(text)));
    }
    match extract_xml_tag(text, "string") {
        Some(name) => Ok(name),
        None => Ok("Typecho".to_owned()),
    }
}

/// What the reply to the test of a connection says: the name of a blog, or a message.
pub fn typecho_test_reply(status: u16, body: &[u8]) -> (r: Result<String, String>)
    ensures
        match r {
            Ok(name) => test_reply(status, lossy_text(body@)) == Ok::<Seq<char>, Seq<char>>(name@),
            Err(e) => test_reply(status, lossy_text(body@)) == Err::<Seq<char>, Seq<char>>(e@),
        },
{
    typecho_test_result(status, &utf8_lossy(body))
}

} // verus!

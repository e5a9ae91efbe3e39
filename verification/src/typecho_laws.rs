//! What the calls to Typecho carry, and how the replies to them are understood.

use vstd::prelude::*;

use crate::http::{BodyView, HttpMethod};
use crate::number::decimal;
use crate::publishing::{base64, html_of, xml_escaped, xml_tag, xml_value, TypechoConfig};
use crate::text::{contains_text, has_suffix, is_blank, trim_of};
use crate::typecho::{
    article_request, blogs_call, blogs_request, edit_post_call, file_request, media_call,
    media_reply, new_post_call, post_call, post_to_edit, publish_call, publish_reply,
    string_member, string_param, test_reply, xml_request,
};

verus! {

// ---------------------------------------------------------------------------
// Calls
// ---------------------------------------------------------------------------

/// What ends a call whose last parameter is a truth value.
pub open spec fn last_boolean(digit: char) -> Seq<char> {
    "<param><value><boolean>"@ + seq![digit]
        + "</boolean></value></param></params></methodCall>"@
}

proof fn lemma_last_boolean(digit: char)
    ensures
        last_boolean(digit).len() == 72,
        last_boolean(digit)[23] == digit,
{
    reveal_strlit("<param><value><boolean>");
    reveal_strlit("</boolean></value></param></params></methodCall>");
    assert("<param><value><boolean>"@.len() == 23);
}

/// The start of a call, up to its parameters.
pub open spec fn call_head(method: Seq<char>) -> Seq<char> {
    "<?xml version=\"1.0\" encoding=\"UTF-8\"?><methodCall><methodName>"@ + method
        + "</methodName><params>"@
}

/// A text as a parameter of a call.
pub open spec fn text_param(s: Seq<char>) -> Seq<char> {
    "<param><value><string>"@ + xml_escaped(s) + "</string></value></param>"@
}

/// A text as a member of a structure.
pub open spec fn text_member(name: Seq<char>, s: Seq<char>) -> Seq<char> {
    "<member><name>"@ + name + "</name><value><string>"@ + xml_escaped(s)
        + "</string></value></member>"@
}

proof fn lemma_text_param(s: Seq<char>)
    ensures
        string_param(s) == text_param(s),
{
    reveal_strlit("<param>");
    reveal_strlit("<value><string>");
    reveal_strlit("</string></value>");
    reveal_strlit("</param>");
    reveal_strlit("<param><value><string>");
    reveal_strlit("</string></value></param>");
    assert("<param>"@ + "<value><string>"@ =~= "<param><value><string>"@);
    assert("</string></value>"@ + "</param>"@ =~= "</string></value></param>"@);
    assert(string_param(s) =~= ("<param>"@ + "<value><string>"@) + xml_escaped(s) + (
    "</string></value>"@ + "</param>"@));
}

proof fn lemma_text_member(name: Seq<char>, s: Seq<char>)
    ensures
        string_member(name, s) == text_member(name, s),
{
    reveal_strlit("</name>");
    reveal_strlit("<value><string>");
    reveal_strlit("</string></value>");
    reveal_strlit("</member>");
    reveal_strlit("</name><value><string>");
    reveal_strlit("</string></value></member>");
    assert("</name>"@ + "<value><string>"@ =~= "</name><value><string>"@);
    assert("</string></value>"@ + "</member>"@ =~= "</string></value></member>"@);
    assert(string_member(name, s) =~= "<member><name>"@ + name + ("</name>"@ + "<value><string>"@)
        + xml_escaped(s) + ("</string></value>"@ + "</member>"@));
}

/// What the posting of an article carries behind the identifier and before the truth value that
/// publishes it: the credentials, and the title and the text of the article.
pub open spec fn post_middle(
    username: Seq<char>,
    password: Seq<char>,
    title: Seq<char>,
    html: Seq<char>,
) -> Seq<char> {
    text_param(username) + text_param(password) + "<param><value><struct>"@ + text_member(
        "title"@,
        title,
    ) + text_member("description"@, html) + "</struct></value></param>"@
}

proof fn lemma_post_call(
    method: Seq<char>,
    id: Seq<char>,
    username: Seq<char>,
    password: Seq<char>,
    title: Seq<char>,
    html: Seq<char>,
    publish: bool,
)
    ensures
        post_call(method, id, username, password, title, html, publish) == call_head(method)
            + text_param(id) + post_middle(username, password, title, html) + last_boolean(
            if publish {
                '1'
            } else {
                '0'
            },
        ),
{
    lemma_text_param(id);
    lemma_text_param(username);
    lemma_text_param(password);
    lemma_text_member("title"@, title);
    lemma_text_member("description"@, html);
    reveal_strlit("1");
    reveal_strlit("0");
    reveal_strlit("</struct></value></param><param><value><boolean>");
    reveal_strlit("</struct></value></param>");
    reveal_strlit("<param><value><boolean>");
    reveal_strlit("</boolean></value></param>");
    reveal_strlit("</params></methodCall>");
    reveal_strlit("</boolean></value></param></params></methodCall>");
    assert("1"@ =~= seq!['1'] && "0"@ =~= seq!['0']);
    assert("</struct></value></param><param><value><boolean>"@ =~= "</struct></value></param>"@
        + "<param><value><boolean>"@);
    assert("</boolean></value></param></params></methodCall>"@ =~= "</boolean></value></param>"@
        + "</params></methodCall>"@);
    let digit = if publish {
        seq!['1']
    } else {
        seq!['0']
    };
    assert(post_call(method, id, username, password, title, html, publish) =~= call_head(method)
        + text_param(id) + post_middle(username, password, title, html) + (
    "<param><value><boolean>"@ + digit + ("</boolean></value></param>"@
        + "</params></methodCall>"@)));
}

/// A new article is posted by a call of `metaWeblog.newPost` with, in order: the blog, the
/// credentials, the title and the text of the article, and whether it is published.
pub proof fn law_new_post_call(
    username: Seq<char>,
    password: Seq<char>,
    title: Seq<char>,
    html: Seq<char>,
    publish: bool,
)
    ensures
        new_post_call(username, password, title, html, publish) == call_head(
            "metaWeblog.newPost"@,
        ) + text_param("0"@) + post_middle(username, password, title, html) + last_boolean(
            if publish {
                '1'
            } else {
                '0'
            },
        ),
{
    lemma_post_call("metaWeblog.newPost"@, "0"@, username, password, title, html, publish);
}

/// An article is changed by a call of `metaWeblog.editPost`, which carries the identifier of the post
/// where a new one has the blog.
pub proof fn law_edit_post_call(
    id: Seq<char>,
    username: Seq<char>,
    password: Seq<char>,
    title: Seq<char>,
    html: Seq<char>,
    publish: bool,
)
    ensures
        edit_post_call(id, username, password, title, html, publish) == call_head(
            "metaWeblog.editPost"@,
        ) + text_param(id) + post_middle(username, password, title, html) + last_boolean(
            if publish {
                '1'
            } else {
                '0'
            },
        ),
{
    lemma_post_call("metaWeblog.editPost"@, id, username, password, title, html, publish);
}

proof fn lemma_ends(head: Seq<char>, digit: char, other: char)
    ensures
        has_suffix(head + last_boolean(digit), last_boolean(digit)),
        other != digit ==> !has_suffix(head + last_boolean(digit), last_boolean(other)),
{
    lemma_last_boolean(digit);
    lemma_last_boolean(other);
    let whole = head + last_boolean(digit);
    assert(whole.skip(whole.len() - 72) =~= last_boolean(digit));
}

/// The last parameter of the call that publishes an article is the truth value 1 exactly where the
/// article is to be public, and 0 exactly where not, whatever else the call carries.
pub proof fn law_publish_flag(
    config: TypechoConfig,
    title: Seq<char>,
    html: Seq<char>,
    existing: Option<Seq<char>>,
    publish: bool,
)
    ensures
        ({
            let call = publish_call(config, title, html, existing, publish);
            &&& has_suffix(call, last_boolean('1')) <==> publish
            &&& has_suffix(call, last_boolean('0')) <==> !publish
        }),
{
    let digit = if publish {
        '1'
    } else {
        '0'
    };
    let u = config.username@;
    let p = config.password@;
    match post_to_edit(existing) {
        Some(id) => {
            law_edit_post_call(id, u, p, title, html, publish);
            let head = call_head("metaWeblog.editPost"@) + text_param(id) + post_middle(
                u,
                p,
                title,
                html,
            );
            lemma_ends(head, digit, '1');
            lemma_ends(head, digit, '0');
        },
        None => {
            law_new_post_call(u, p, title, html, publish);
            let head = call_head("metaWeblog.newPost"@) + text_param("0"@) + post_middle(
                u,
                p,
                title,
                html,
            );
            lemma_ends(head, digit, '1');
            lemma_ends(head, digit, '0');
        },
    }
}

/// Two calls that differ in whether the article is public, and in nothing else, are different.
pub proof fn law_public_and_draft_differ(
    config: TypechoConfig,
    title: Seq<char>,
    html: Seq<char>,
    existing: Option<Seq<char>>,
)
    ensures
        publish_call(config, title, html, existing, true) != publish_call(
            config,
            title,
            html,
            existing,
            false,
        ),
{
    law_publish_flag(config, title, html, existing, true);
    law_publish_flag(config, title, html, existing, false);
}

/// An article that has a post already changes that post; one that has none, or one whose identifier
/// is blank, makes a new one.
pub proof fn law_existing_post_is_changed(
    config: TypechoConfig,
    title: Seq<char>,
    html: Seq<char>,
    existing: Option<Seq<char>>,
    publish: bool,
)
    ensures
        publish_call(config, title, html, existing, publish) == if existing is Some && !is_blank(
            existing.unwrap(),
        ) {
            edit_post_call(
                existing.unwrap(),
                config.username@,
                config.password@,
                title,
                html,
                publish,
            )
        } else {
            new_post_call(config.username@, config.password@, title, html, publish)
        },
{
}

/// A file is stored by a call of `metaWeblog.newMediaObject` with its name, its type and its bytes.
pub proof fn law_media_call(
    username: Seq<char>,
    password: Seq<char>,
    name: Seq<char>,
    mime: Seq<char>,
    bytes: Seq<u8>,
)
    ensures
        media_call(username, password, name, mime, bytes) == call_head(
            "metaWeblog.newMediaObject"@,
        ) + text_param("0"@) + text_param(username) + text_param(password)
            + "<param><value><struct>"@ + text_member("name"@, name) + text_member("type"@, mime)
            + "<member><name>bits</name><value><base64>"@ + base64(bytes)
            + "</base64></value></member></struct></value></param></params></methodCall>"@,
{
    lemma_text_param("0"@);
    lemma_text_param(username);
    lemma_text_param(password);
    lemma_text_member("name"@, name);
    lemma_text_member("type"@, mime);
    reveal_strlit("</base64></value></member></struct></value></param>");
    reveal_strlit("</params></methodCall>");
    reveal_strlit("</base64></value></member></struct></value></param></params></methodCall>");
    let a = "</base64></value></member></struct></value></param>"@;
    let b = "</params></methodCall>"@;
    let c = "</base64></value></member></struct></value></param></params></methodCall>"@;
    assert(c =~= a + b);
    assert(media_call(username, password, name, mime, bytes) =~= call_head(
        "metaWeblog.newMediaObject"@,
    ) + text_param("0"@) + text_param(username) + text_param(password) + "<param><value><struct>"@
        + text_member("name"@, name) + text_member("type"@, mime)
        + "<member><name>bits</name><value><base64>"@ + base64(bytes) + (a + b));
}

/// A connection is tested by a call of `blogger.getUsersBlogs` with the credentials.
pub proof fn law_blogs_call(username: Seq<char>, password: Seq<char>)
    ensures
        blogs_call(username, password) == call_head("blogger.getUsersBlogs"@) + text_param("0"@)
            + text_param(username) + text_param(password) + "</params></methodCall>"@,
{
    lemma_text_param("0"@);
    lemma_text_param(username);
    lemma_text_param(password);
    assert(blogs_call(username, password) =~= call_head("blogger.getUsersBlogs"@) + text_param(
        "0"@,
    ) + text_param(username) + text_param(password) + "</params></methodCall>"@);
}

/// A call goes to the address of the settings, as XML in UTF-8 and unchanged.
pub proof fn law_call_is_sent(url: Seq<char>, xml: Seq<char>)
    ensures
        ({
            let request = xml_request(url, xml);
            &&& request.method == HttpMethod::Post
            &&& request.uri == url
            &&& request.body is Text
            &&& request.body->Text_0 == xml
            &&& request.headers.len() == 1
            &&& request.headers[0] == ("Content-Type"@, "text/xml; charset=utf-8"@)
        }),
{
}

/// An article goes to the address of the settings as a call that posts its HTML, under its title and
/// with the credentials of the settings: it changes the post that exists, and is public as it was asked
/// for.
pub proof fn law_article_request(
    config: TypechoConfig,
    title: Seq<char>,
    markdown: Seq<char>,
    existing: Option<Seq<char>>,
    publish: bool,
)
    ensures
        ({
            let request = article_request(config, title, markdown, existing, publish);
            let middle = post_middle(
                config.username@,
                config.password@,
                title,
                html_of(markdown),
            );
            let digit = if publish {
                '1'
            } else {
                '0'
            };
            &&& request.method == HttpMethod::Post
            &&& request.uri == config.xmlrpc_url@
            &&& request.body is Text
            &&& existing is Some && !is_blank(existing.unwrap()) ==> request.body->Text_0
                == call_head("metaWeblog.editPost"@) + text_param(existing.unwrap()) + middle
                + last_boolean(digit)
            &&& existing is None || is_blank(existing.unwrap()) ==> request.body->Text_0
                == call_head("metaWeblog.newPost"@) + text_param("0"@) + middle + last_boolean(
                digit,
            )
        }),
{
    let u = config.username@;
    let p = config.password@;
    law_new_post_call(u, p, title, html_of(markdown), publish);
    if existing is Some {
        law_edit_post_call(existing.unwrap(), u, p, title, html_of(markdown), publish);
    }
}

/// Files and tests go to the address of the settings too, with the credentials of the settings.
pub proof fn law_other_requests(
    config: TypechoConfig,
    name: Seq<char>,
    mime: Seq<char>,
    bytes: Seq<u8>,
)
    ensures
        file_request(config, name, mime, bytes).method == HttpMethod::Post,
        file_request(config, name, mime, bytes).uri == config.xmlrpc_url@,
        file_request(config, name, mime, bytes).body == BodyView::Text(
            media_call(config.username@, config.password@, name, mime, bytes),
        ),
        blogs_request(config).method == HttpMethod::Post,
        blogs_request(config).uri == config.xmlrpc_url@,
        blogs_request(config).body == BodyView::Text(
            blogs_call(config.username@, config.password@),
        ),
{
}

// ---------------------------------------------------------------------------
// Replies
// ---------------------------------------------------------------------------

/// A publication succeeds just where the status says so and the reply has neither a fault nor a
/// refusal. It then gives the value of the reply, or a note where there is none.
pub proof fn law_publish_reply(status: u16, text: Seq<char>)
    ensures
        ({
            let reply = publish_reply(status, text);
            &&& reply is Ok <==> 200 <= status <= 299 && !contains_text(text, "<fault>"@)
                && !contains_text(text, "<boolean>0</boolean>"@)
            &&& reply is Ok && xml_value(text) is Some ==> reply->Ok_0 == xml_value(text).unwrap()
            &&& reply is Ok && xml_value(text) is None ==> reply->Ok_0 == "已提交"@
            &&& status < 200 || status > 299 ==> reply->Err_0 == "Typecho 返回 HTTP "@ + decimal(
                status as nat,
            ) + "："@ + trim_of(text)
            &&& reply is Err && 200 <= status <= 299 ==> reply->Err_0
                == "Typecho XML-RPC 返回错误："@ + trim_of(text)
        }),
{
}

/// A file is stored just where the status says so and the reply has an address and no fault.
pub proof fn law_media_reply(status: u16, text: Seq<char>)
    ensures
        ({
            let reply = media_reply(status, text);
            let string = xml_tag(text, "string"@);
            let url = xml_tag(text, "url"@);
            &&& reply is Ok <==> 200 <= status <= 299 && !contains_text(text, "<fault>"@) && (string
                is Some || url is Some)
            &&& reply is Ok && string is Some ==> reply->Ok_0 == string.unwrap()
            &&& reply is Ok && string is None ==> reply->Ok_0 == url.unwrap()
            &&& status < 200 || status > 299 ==> reply->Err_0 == "Typecho media HTTP "@ + decimal(
                status as nat,
            ) + ": "@ + trim_of(text)
            &&& 200 <= status <= 299 && contains_text(text, "<fault>"@) ==> reply->Err_0
                == "Typecho media XML-RPC error: "@ + trim_of(text)
            &&& reply is Err && 200 <= status <= 299 && !contains_text(text, "<fault>"@)
                ==> reply->Err_0 == "Typecho media upload returned no URL"@
        }),
{
}

/// A test succeeds just where the status says so and the reply has no fault. It then gives the first
/// name in the reply.
pub proof fn law_test_reply(status: u16, text: Seq<char>)
    ensures
        ({
            let reply = test_reply(status, text);
            let string = xml_tag(text, "string"@);
            &&& reply is Ok <==> 200 <= status <= 299 && !contains_text(text, "<fault>"@)
            &&& reply is Ok && string is Some ==> reply->Ok_0 == string.unwrap()
            &&& reply is Ok && string is None ==> reply->Ok_0 == "Typecho"@
            &&& status < 200 || status > 299 ==> reply->Err_0 == "Typecho test HTTP "@ + decimal(
                status as nat,
            ) + ": "@ + trim_of(text)
            &&& reply is Err && 200 <= status <= 299 ==> reply->Err_0
                == "Typecho test XML-RPC error: "@ + trim_of(text)
        }),
{
}

/// The value of a reply is that of its first text, or else of its first number, in either way of
/// writing it.
pub proof fn law_value_of_reply(text: Seq<char>)
    ensures
        ({
            let string = xml_tag(text, "string"@);
            let number = xml_tag(text, "int"@);
            let value = xml_value(text);
            &&& string is Some ==> value == string
            &&& string is None && number is Some ==> value == number
            &&& string is None && number is None ==> value == xml_tag(text, "i4"@)
        }),
{
}

} // verus!

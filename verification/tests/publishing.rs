use open_live_writer::bytes::{utf16_units, utf8_bytes};
use open_live_writer::http::{HttpMethod, HttpReply, HttpRequest, RequestBody};
use open_live_writer::json::{object1, text_value, Json};
use open_live_writer::markdown::{parse_inline, Block};
use open_live_writer::notion::{
    block_to_notion, data_source_of, notion_account_of, notion_blocks, notion_blocks_of,
    notion_code_language, notion_page_of, notion_page_payload, notion_request, notion_test_reply,
    notion_test_request, pad_table_cells, parse_notion_page_id, rich_text_of_pieces,
    title_property_of, NotionPublish, NotionStage, NotionStep, NotionTarget,
};
use open_live_writer::publishing::{
    choose_title, document_title, encode_base64, env_var_trimmed, extract_xml_tag,
    extract_xml_value, html_or_source, is_file_url, is_public_url, local_image_count, local_images,
    local_images_of, markdown_to_html, other_image_count, replace_image_url, response_text,
    status_is_success, xml_escape, NotionConfig, StoredPublishSettings, TypechoConfig,
    CREDENTIALS_URL, CREDENTIALS_USERNAME,
};
use open_live_writer::reply::escape_pointer;
use open_live_writer::typecho::{
    metaweblog_edit_post_xml, metaweblog_new_post_xml, typecho_media_reply, typecho_media_request,
    typecho_publish_html, typecho_publish_reply, typecho_publish_request, typecho_publish_result,
    typecho_test_reply, typecho_test_request,
};

fn at<'a>(value: &'a Json, path: &[&str]) -> &'a Json {
    let mut value = value;
    for key in path {
        value = match key.parse::<usize>() {
            Ok(index) => value.item(index).unwrap(),
            Err(_) => value.get(key).unwrap(),
        };
    }
    value
}

fn str_at<'a>(value: &'a Json, path: &[&str]) -> &'a str {
    at(value, path).as_str().unwrap()
}

#[test]
fn parses_notion_page_and_database_targets() {
    let database = NotionTarget::parse(
        "https://app.notion.com/p/tooktang/14c856c35cbc80a1aa43eb1c4955c328?v=28fcd53b378a47bfb371e339f0976aff",
    );
    assert_eq!(database.id, "14c856c35cbc80a1aa43eb1c4955c328");
    assert!(database.database_hint);

    let page = NotionTarget::parse("14c856c35cbc80a1aa43eb1c4955c328");
    assert_eq!(page.id, "14c856c35cbc80a1aa43eb1c4955c328");
    assert!(!page.database_hint);
}

#[test]
fn parses_odd_notion_targets() {
    let target = NotionTarget::parse(" https://x/y/abc//#frag?v=1 ");
    assert_eq!(target.id, "abc");
    assert!(target.database_hint);
    assert!(NotionTarget::parse("abc?a=1&v").database_hint);
    assert!(!NotionTarget::parse("abc?view=1").database_hint);
    assert_eq!(NotionTarget::parse("///").id, "");
}

#[test]
fn builds_database_page_payload_with_dynamic_title_property() {
    let payload = notion_page_payload(
        object1("data_source_id", text_value("data-source-id")),
        "Name",
        "Article title",
        Vec::new(),
    );
    assert_eq!(str_at(&payload, &["parent", "data_source_id"]), "data-source-id");
    assert_eq!(
        str_at(&payload, &["properties", "Name", "title", "0", "text", "content"]),
        "Article title"
    );
}

#[test]
fn exports_notion_blocks_without_losing_ordered_list_semantics() {
    let blocks = notion_blocks("# 标题\n\n1. 第一项\n\n> 引用").unwrap();
    assert_eq!(str_at(&blocks[0], &["type"]), "heading_1");
    assert_eq!(str_at(&blocks[1], &["type"]), "numbered_list_item");
    assert_eq!(str_at(&blocks[2], &["type"]), "quote");
}

#[test]
fn exports_gfm_tasks_and_notion_asides() {
    let blocks = notion_blocks("- [ ] 待办\n- [x] 已完成\n\n<aside>提示</aside>").unwrap();
    assert_eq!(str_at(&blocks[0], &["type"]), "to_do");
    assert_eq!(at(&blocks[0], &["to_do", "checked"]).as_bool(), Some(false));
    assert_eq!(at(&blocks[1], &["to_do", "checked"]).as_bool(), Some(true));
    assert_eq!(str_at(&blocks[2], &["type"]), "callout");
    assert_eq!(
        str_at(&blocks[2], &["callout", "rich_text", "0", "text", "content"]),
        "提示"
    );
}

#[test]
fn preserves_common_inline_annotations_and_links() {
    let blocks = notion_blocks("**粗体** *斜体* [链接](https://example.com)").unwrap();
    let rich_text = at(&blocks[0], &["paragraph", "rich_text"]);
    assert_eq!(at(rich_text, &["0", "annotations", "bold"]).as_bool(), Some(true));
    assert_eq!(at(rich_text, &["2", "annotations", "italic"]).as_bool(), Some(true));
    assert_eq!(str_at(rich_text, &["4", "text", "link", "url"]), "https://example.com");
}

#[test]
fn exports_images_and_tables_for_notion() {
    let blocks = notion_blocks(
        "![封面](https://example.com/a.png)\n\n[视频](https://example.com/video)\n\n| 名称 | 值 |\n| --- | --- |\n| 一 | 二 |",
    )
    .unwrap();
    assert_eq!(str_at(&blocks[0], &["type"]), "image");
    assert_eq!(
        str_at(&blocks[0], &["image", "external", "url"]),
        "https://example.com/a.png"
    );
    assert_eq!(str_at(&blocks[1], &["type"]), "video");
    assert_eq!(
        str_at(&blocks[1], &["video", "external", "url"]),
        "https://example.com/video"
    );
    assert_eq!(str_at(&blocks[2], &["type"]), "table");
    assert_eq!(at(&blocks[2], &["table", "table_width"]).as_u64(), Some(2));
    assert_eq!(
        str_at(
            &blocks[2],
            &["children", "1", "table_row", "cells", "0", "0", "text", "content"]
        ),
        "一"
    );
}

#[test]
fn converts_markdown_to_html_for_typecho() {
    let html = markdown_to_html("# 标题\n\n- 一\n- 二");
    assert!(html.contains("<h1>标题</h1>"));
    assert!(html.contains("<li>一</li>"));
}

#[test]
fn counts_local_image_links() {
    assert_eq!(
        local_image_count("![a](file:///C:/x.png) [b](https://e.com)"),
        1
    );
    assert_eq!(local_image_count("no local images"), 0);
}

#[test]
fn exports_code_language_for_notion() {
    let blocks = notion_blocks("```rust\nfn main() {}\n```").unwrap();
    assert_eq!(str_at(&blocks[0], &["code", "language"]), "rust");
    let blocks = notion_blocks("```\nplain\n```").unwrap();
    assert_eq!(str_at(&blocks[0], &["code", "language"]), "plain text");
    let blocks = notion_blocks("```UnknownLang\nx\n```").unwrap();
    assert_eq!(str_at(&blocks[0], &["code", "language"]), "plain text");
}

#[test]
fn derives_a_stable_title_and_escapes_xml() {
    assert_eq!(document_title("# 我的文章\n\n正文"), "我的文章");
    assert_eq!(document_title("开头说明\n\n# 正式标题"), "正式标题");
    assert_eq!(xml_escape("<a&\"'"), "&lt;a&amp;&quot;&apos;");
    let xml = metaweblog_new_post_xml("u&", "p", "标题", "正文", true);
    assert!(xml.contains("<string>u&amp;</string>"));
    assert!(xml.contains("<member><name>description</name>"));
}

#[test]
fn encodes_base64_and_lists_local_images() {
    assert_eq!(encode_base64(b"Man"), "TWFu");
    assert_eq!(local_images("![a](file:///C:/x.png)").len(), 1);
}

#[test]
fn base64_fills_up_with_equals_signs() {
    assert_eq!(encode_base64(b""), "");
    assert_eq!(encode_base64(b"M"), "TQ==");
    assert_eq!(encode_base64(b"Ma"), "TWE=");
    assert_eq!(encode_base64(&[0xFB, 0xFF, 0xBF, 0x00]), "+/+/AA==");
}

#[test]
fn knows_code_languages() {
    assert_eq!(notion_code_language(None), "plain text");
    assert_eq!(notion_code_language(Some("ZSH")), "bash");
    assert_eq!(notion_code_language(Some("c++")), "cpp");
    assert_eq!(notion_code_language(Some("golang")), "go");
    assert_eq!(notion_code_language(Some("yml")), "yaml");
    assert_eq!(notion_code_language(Some("brainfuck")), "plain text");
}

#[test]
fn chooses_titles() {
    assert_eq!(choose_title(None, None), "未命名文章");
    assert_eq!(choose_title(Some(" ".into()), Some("p".into())), "未命名文章");
    assert_eq!(choose_title(None, Some("p".into())), "p");
    assert_eq!(choose_title(Some("字".repeat(101)), None), "字".repeat(100));
    assert_eq!(document_title(""), "未命名文章");
    assert_eq!(document_title("**粗** 文"), "粗 文");
}

#[test]
fn media_that_others_cannot_reach_becomes_a_note() {
    let note = block_to_notion(&Block::Image { alt: " 封面 ".into(), url: "a.png".into() });
    assert_eq!(str_at(&note, &["type"]), "paragraph");
    assert_eq!(
        str_at(&note, &["paragraph", "rich_text", "0", "text", "content"]),
        "图片未上传：封面（a.png）"
    );
    let note = block_to_notion(&Block::Video { url: "v.mp4".into() });
    assert_eq!(
        str_at(&note, &["paragraph", "rich_text", "0", "text", "content"]),
        "视频未上传：v.mp4"
    );
    assert!(is_public_url(" HTTPS://x "));
    assert!(!is_public_url("ftp://x"));
    assert!(is_file_url(" FILE://x"));
    let blocks = vec![
        Block::Image { alt: "a".into(), url: "https://x".into() },
        Block::Image { alt: "b".into(), url: "b.png".into() },
        Block::Image { alt: "c".into(), url: "File:///c.png".into() },
    ];
    let images = local_images_of(&blocks);
    assert_eq!(images.len(), 2);
    assert_eq!(images[0].url, "b.png");
    assert_eq!(other_image_count(&images), 1);
    assert_eq!(replace_image_url("![a](x) x", "x", "y"), "![a](y) x");
}

#[test]
fn long_text_goes_in_parts() {
    let blocks = notion_blocks_of(&vec![Block::Code { text: "x".repeat(4001), language: None }]).unwrap();
    let parts = at(&blocks[0], &["code", "rich_text"]);
    assert_eq!(str_at(parts, &["0", "text", "content"]).len(), 2000);
    assert_eq!(str_at(parts, &["2", "text", "content"]), "x");
    assert!(parts.item(3).is_none());
    let pieces = rich_text_of_pieces(&parse_inline("`a`"));
    assert_eq!(at(&pieces[0], &["annotations", "code"]).as_bool(), Some(true));
    assert!(at(&pieces[0], &["text"]).get("link").is_none());
}

#[test]
fn tables_are_filled_up_to_the_widest_row() {
    let table = block_to_notion(&Block::Table {
        headers: vec!["a".into()],
        rows: vec![vec!["b".into(), "c".into()], vec![]],
    });
    assert_eq!(at(&table, &["table", "table_width"]).as_u64(), Some(2));
    assert_eq!(at(&table, &["table", "has_column_header"]).as_bool(), Some(true));
    let cells = at(&table, &["children", "2", "table_row", "cells"]);
    assert!(cells.item(1).is_some());
    assert!(cells.item(2).is_none());
    assert_eq!(pad_table_cells(&vec!["a".into(), "b".into()], 1), vec!["a".to_owned()]);
}

#[test]
fn refuses_more_blocks_than_notion_takes() {
    let text = "a\n\n".repeat(101);
    assert_eq!(
        notion_blocks(&text).unwrap_err(),
        "Notion 单次发布最多支持 100 个区块，请拆分文章"
    );
    assert_eq!(notion_blocks(&"a\n\n".repeat(100)).unwrap().len(), 100);
}

#[test]
fn settings_come_trimmed_or_not_at_all() {
    let mut settings = StoredPublishSettings::default();
    assert!(settings.notion_config().is_none());
    settings.notion_token = " t ".into();
    settings.notion_parent_page_id = " p ".into();
    let config = settings.notion_config().unwrap();
    assert_eq!(config.token, "t");
    assert_eq!(config.parent_page_id, "p");
    settings.typecho_xmlrpc_url = " u ".into();
    settings.typecho_username = " n ".into();
    settings.typecho_password = " p ".into();
    let config = settings.typecho_config().unwrap();
    assert_eq!(config.xmlrpc_url, "u");
    assert_eq!(config.password, " p ");
    assert_eq!(env_var_trimmed(Some("  ".into())), None);
    assert_eq!(
        NotionConfig::from_env(Some(" a ".into()), Some("b".into())).unwrap().token,
        "a"
    );
    assert!(NotionConfig::from_env(Some("a".into()), None).is_none());
    assert!(TypechoConfig::from_env(Some("a".into()), Some("b".into()), Some(" ".into())).is_none());
    assert_eq!(
        TypechoConfig::from_env(Some("a".into()), Some("b".into()), Some(" c ".into())).unwrap().password,
        "c"
    );
    assert_eq!(CREDENTIALS_URL, "open-live-writer://publishing");
    assert_eq!(CREDENTIALS_USERNAME, "open-live-writer");
}

#[test]
fn reads_xml_and_replies() {
    assert_eq!(extract_xml_tag("a<int>5</int>", "int").as_deref(), Some("5"));
    assert_eq!(extract_xml_tag("<int>5", "int"), None);
    assert_eq!(extract_xml_value("<i4>7</i4><int>8</int>").as_deref(), Some("8"));
    assert_eq!(extract_xml_value("x"), None);
    assert_eq!(html_or_source(None, "a"), "a");
    assert_eq!(html_or_source(Some("<p>".into()), "a"), "<p>");
    assert_eq!(response_text(&[b'a', 0xFF]), "a\u{FFFD}");
    assert_eq!(response_text("字".repeat(501).as_bytes()), "字".repeat(500));
    assert!(status_is_success(204));
    assert!(!status_is_success(302));
    assert_eq!(escape_pointer("a/b~c"), "a~1b~0c");
    assert_eq!(utf16_units("a𝄞"), vec![0x61, 0xD834, 0xDD1E]);
    assert_eq!(utf8_bytes("é"), vec![0xC3, 0xA9]);
}

fn typecho() -> TypechoConfig {
    TypechoConfig {
        xmlrpc_url: "https://blog/xmlrpc".into(),
        username: "u".into(),
        password: "p<".into(),
    }
}

fn xml_of(request: &HttpRequest) -> &str {
    match &request.body {
        RequestBody::Text(xml) => xml,
        _ => panic!("not a text"),
    }
}

#[test]
fn builds_typecho_calls() {
    let request = typecho_publish_request(&typecho(), "T", "# a", None, false);
    assert_eq!(request.uri, "https://blog/xmlrpc");
    assert_eq!(request.method, HttpMethod::Post);
    assert_eq!(request.headers[0].value, "text/xml; charset=utf-8");
    assert_eq!(
        xml_of(&request),
        "<?xml version=\"1.0\" encoding=\"UTF-8\"?><methodCall><methodName>metaWeblog.newPost</methodName><params><param><value><string>0</string></value></param><param><value><string>u</string></value></param><param><value><string>p&lt;</string></value></param><param><value><struct><member><name>title</name><value><string>T</string></value></member><member><name>description</name><value><string>&lt;h1&gt;a&lt;/h1&gt;</string></value></member></struct></value></param><param><value><boolean>0</boolean></value></param></params></methodCall>"
    );
    let request = typecho_publish_html(&typecho(), "T", "h", Some("12"), true);
    assert_eq!(xml_of(&request), metaweblog_edit_post_xml("12", "u", "p<", "T", "h", true));
    let request = typecho_publish_html(&typecho(), "T", "h", Some(" "), true);
    assert_eq!(xml_of(&request), metaweblog_new_post_xml("u", "p<", "T", "h", true));
    let request = typecho_media_request(&typecho(), "a.png", "image/png", b"Man");
    assert!(xml_of(&request).contains("<methodName>metaWeblog.newMediaObject</methodName>"));
    assert!(xml_of(&request).contains("<name>bits</name><value><base64>TWFu</base64></value>"));
    let request = typecho_test_request(&typecho());
    assert_eq!(
        xml_of(&request),
        "<?xml version=\"1.0\" encoding=\"UTF-8\"?><methodCall><methodName>blogger.getUsersBlogs</methodName><params><param><value><string>0</string></value></param><param><value><string>u</string></value></param><param><value><string>p&lt;</string></value></param></params></methodCall>"
    );
}

#[test]
fn reads_typecho_replies() {
    assert_eq!(typecho_publish_reply(200, b"<string>9</string>").unwrap(), "9");
    assert_eq!(typecho_publish_reply(200, b"ok").unwrap(), "已提交");
    assert_eq!(typecho_publish_reply(500, b" no ").unwrap_err(), "Typecho 返回 HTTP 500：no");
    assert_eq!(
        typecho_publish_result(200, "<fault>x</fault>").unwrap_err(),
        "Typecho XML-RPC 返回错误：<fault>x</fault>"
    );
    assert!(typecho_publish_result(200, "<boolean>0</boolean>").is_err());
    assert_eq!(typecho_media_reply(200, b"<url>u</url>").unwrap(), "u");
    assert_eq!(
        typecho_media_reply(200, b"x").unwrap_err(),
        "Typecho media upload returned no URL"
    );
    assert_eq!(typecho_media_reply(404, b"x").unwrap_err(), "Typecho media HTTP 404: x");
    assert_eq!(
        typecho_media_reply(200, b"<fault>").unwrap_err(),
        "Typecho media XML-RPC error: <fault>"
    );
    assert_eq!(typecho_test_reply(200, b"x").unwrap(), "Typecho");
    assert_eq!(typecho_test_reply(200, b"<string>B</string>").unwrap(), "B");
    assert_eq!(typecho_test_reply(401, b"x").unwrap_err(), "Typecho test HTTP 401: x");
    assert!(typecho_test_reply(200, b"<fault>").is_err());
}

#[test]
fn reads_notion_replies() {
    let page = parse_notion_page_id(200, br#"{"id":"1","url":"https://n"}"#).unwrap();
    assert_eq!(page.id, "1");
    assert_eq!(page.url, "https://n");
    assert_eq!(
        parse_notion_page_id(200, br#"{"url":"https://n"}"#).unwrap_err(),
        "Notion returned success without a page ID"
    );
    assert_eq!(
        parse_notion_page_id(200, br#"{"id":"1","url":" "}"#).unwrap_err(),
        "Notion returned success without a page URL"
    );
    assert_eq!(parse_notion_page_id(400, b"bad").unwrap_err(), "Notion returned HTTP 400: bad");
    assert_eq!(
        parse_notion_page_id(200, b"{").unwrap_err(),
        serde_json::from_slice::<serde_json::Value>(b"{").unwrap_err().to_string()
    );
    assert_eq!(notion_page_of(Some("e".into()), None, None).unwrap_err(), "e");
    assert_eq!(notion_test_reply(200, br#"{"name":"N"}"#).unwrap(), "N");
    assert_eq!(
        notion_test_reply(200, br#"{"bot":{"owner":{"user":{"name":"O"}}}}"#).unwrap(),
        "O"
    );
    assert_eq!(notion_test_reply(200, b"{}").unwrap(), "Notion");
    assert_eq!(notion_test_reply(401, b"x").unwrap_err(), "Notion test HTTP 401: x");
    assert_eq!(notion_account_of(None, None, None).unwrap(), "Notion");
    assert_eq!(
        data_source_of(None, Some(vec![None, Some("b".into())])).unwrap(),
        "b"
    );
    assert_eq!(
        data_source_of(None, None).unwrap_err(),
        "Notion database has no available data source"
    );
    assert_eq!(
        title_property_of(None, Some(vec!["a".into(), "b".into()]), &vec![false, true]).unwrap(),
        "b"
    );
    assert_eq!(
        title_property_of(None, Some(vec!["a".into()]), &vec![false]).unwrap_err(),
        "Notion data source has no title property"
    );
}

fn notion(parent: &str) -> NotionConfig {
    NotionConfig { token: "tok".into(), parent_page_id: parent.into() }
}

fn reply(status: u16, body: &str) -> HttpReply {
    HttpReply::Response { status, body: body.as_bytes().to_vec() }
}

#[test]
fn publishes_below_a_page() {
    let (mut publish, request) = NotionPublish::start(&notion("abc"), "T", "text").unwrap();
    assert_eq!(request.uri, "https://api.notion.com/v1/pages");
    assert_eq!(request.method, HttpMethod::Post);
    assert_eq!(request.headers[0].name, "Authorization");
    assert_eq!(request.headers[0].value, "Bearer tok");
    assert_eq!(request.headers[1].value, "2026-03-11");
    match &request.body {
        RequestBody::Json(payload) => {
            assert_eq!(str_at(payload, &["parent", "page_id"]), "abc");
            assert_eq!(
                str_at(payload, &["properties", "title", "title", "0", "text", "content"]),
                "T"
            );
            assert_eq!(str_at(payload, &["children", "0", "type"]), "paragraph");
        }
        _ => panic!("not JSON"),
    }
    match publish.resume(reply(200, r#"{"id":"1","url":"u"}"#)) {
        NotionStep::Done(page) => assert_eq!(page.id, "1"),
        _ => panic!("not done"),
    }
    assert_eq!(publish.stage, NotionStage::Finished);
}

#[test]
fn falls_back_to_a_database() {
    let (mut publish, _) = NotionPublish::start(&notion("abc"), "T", "text").unwrap();
    match publish.resume(reply(404, "")) {
        NotionStep::Send(request) => {
            assert_eq!(request.uri, "https://api.notion.com/v1/databases/abc");
            assert_eq!(request.method, HttpMethod::Get);
        }
        _ => panic!("no request"),
    }
    match publish.resume(reply(200, r#"{"data_sources":[{},{"id":"ds"}]}"#)) {
        NotionStep::Send(request) => {
            assert_eq!(request.uri, "https://api.notion.com/v1/data_sources/ds")
        }
        _ => panic!("no request"),
    }
    match publish.resume(reply(200, r#"{"properties":{"A/b":{"type":"title"},"Z":{"type":"x"}}}"#)) {
        NotionStep::Send(request) => match &request.body {
            RequestBody::Json(payload) => {
                assert_eq!(str_at(payload, &["parent", "data_source_id"]), "ds");
                assert_eq!(
                    str_at(payload, &["properties", "A/b", "title", "0", "text", "content"]),
                    "T"
                );
            }
            _ => panic!("not JSON"),
        },
        _ => panic!("no request"),
    }
    match publish.resume(reply(500, "x")) {
        NotionStep::Failed(message) => assert_eq!(
            message,
            "Notion returned HTTP 404: the parent page was not found; database/data-source fallback also failed: Notion returned HTTP 500: x"
        ),
        _ => panic!("no failure"),
    }
}

#[test]
fn a_database_can_be_a_data_source() {
    let (mut publish, request) = NotionPublish::start(&notion("x/abc?v=1"), "T", "text").unwrap();
    assert_eq!(request.uri, "https://api.notion.com/v1/databases/abc");
    match publish.resume(reply(404, "none")) {
        NotionStep::Send(request) => {
            assert_eq!(request.uri, "https://api.notion.com/v1/data_sources/abc")
        }
        _ => panic!("no request"),
    }
    let mut other = publish.clone();
    match other.resume(reply(403, "no")) {
        NotionStep::Failed(message) => assert_eq!(
            message,
            "database HTTP 404: none; data source HTTP 403: no"
        ),
        _ => panic!("no failure"),
    }
    match publish.resume(reply(200, "")) {
        NotionStep::Send(request) => {
            assert_eq!(request.uri, "https://api.notion.com/v1/data_sources/abc")
        }
        _ => panic!("no request"),
    }
    match publish.resume(reply(200, r#"{"properties":{"Q":{"title":{}}}}"#)) {
        NotionStep::Send(_) => assert_eq!(publish.stage, NotionStage::Row),
        _ => panic!("no request"),
    }
    match publish.resume(HttpReply::Failure("lost".into())) {
        NotionStep::Failed(message) => assert_eq!(message, "lost"),
        _ => panic!("no failure"),
    }
}

#[test]
fn publication_failures_say_why() {
    assert_eq!(
        NotionPublish::start(&notion(" / "), "T", "text").unwrap_err(),
        "Notion parent page or database ID is empty"
    );
    assert!(NotionPublish::start(&notion("abc"), "T", &"a\n\n".repeat(101)).is_err());
    let (mut publish, _) = NotionPublish::start(&notion("abc?v=1"), "T", "text").unwrap();
    match publish.resume(reply(500, "x")) {
        NotionStep::Failed(message) => {
            assert_eq!(message, "Notion database lookup returned HTTP 500: x")
        }
        _ => panic!("no failure"),
    }
    let (mut publish, _) = NotionPublish::start(&notion("abc?v=1"), "T", "text").unwrap();
    match publish.resume(reply(200, "{}")) {
        NotionStep::Failed(message) => {
            assert_eq!(message, "Notion database has no available data source")
        }
        _ => panic!("no failure"),
    }
    let (mut publish, _) = NotionPublish::start(&notion("abc?v=1"), "T", "text").unwrap();
    publish.resume(reply(200, r#"{"data_sources":[{"id":"ds"}]}"#));
    let mut other = publish.clone();
    match publish.resume(reply(404, "x")) {
        NotionStep::Failed(message) => {
            assert_eq!(message, "Notion data-source lookup returned HTTP 404: x")
        }
        _ => panic!("no failure"),
    }
    match other.resume(reply(200, r#"{"properties":{"a":{"type":"x"}}}"#)) {
        NotionStep::Failed(message) => {
            assert_eq!(message, "Notion data source has no title property")
        }
        _ => panic!("no failure"),
    }
    let request = notion_test_request(&notion("abc"));
    assert_eq!(request.uri, "https://api.notion.com/v1/users/me");
    let request = notion_request("t", HttpMethod::Get, "u".into(), None);
    assert!(matches!(request.body, RequestBody::Empty));
}

//! What publishing needs whatever the service: settings, the title and the images of an article, its
//! HTML, and the texts of requests and replies.

use vstd::prelude::*;

use crate::bytes::{lossy_text, utf8_lossy};
use crate::markdown::{
    blocks_view, document_blocks, inline_pieces, parse_blocks, pieces_text, strip_inline, Block,
    BlockView,
};
use crate::text::{
    ascii_lower, blank, chars_of, concat3, contains, contains_text, count_matches, count_of,
    find_at, find_from, first_chars, has_prefix, is_blank, push_text, replace, replace_all,
    slice_of, starts_with, take_chars, to_ascii_lowercase, trim, trim_of,
};
use crate::tree::opt_text;

verus! {

/// The place under which the credentials are kept.
pub const CREDENTIALS_URL: &'static str = "open-live-writer://publishing";

/// The name under which the credentials are kept.
pub const CREDENTIALS_USERNAME: &'static str = "open-live-writer";

// ---------------------------------------------------------------------------
// Settings
// ---------------------------------------------------------------------------

/// The text without the white space at its ends, if anything is left.
pub open spec fn trimmed_value(value: Option<Seq<char>>) -> Option<Seq<char>> {
    match value {
        Some(s) => if is_blank(s) {
            None
        } else {
            Some(trim_of(s))
        },
        None => None,
    }
}

/// The value of an environment variable, without the white space at its ends, if anything is left.
pub fn env_var_trimmed(value: Option<String>) -> (r: Option<String>)
    ensures
        opt_text(r) == trimmed_value(opt_text(value)),
{
    match value {
        Some(s) => if blank(&s) {
            None
        } else {
            Some(trim(&s))
        },
        None => None,
    }
}

/// The publishing settings that the user entered.
#[derive(Clone, Debug, PartialEq, Eq)]
pub struct StoredPublishSettings {
    pub notion_token: String,
    pub notion_parent_page_id: String,
    pub typecho_xmlrpc_url: String,
    pub typecho_username: String,
    pub typecho_password: String,
}

impl Default for StoredPublishSettings {
    fn default() -> (r: StoredPublishSettings)
        ensures
            r.notion_token@.len() == 0,
            r.notion_parent_page_id@.len() == 0,
            r.typecho_xmlrpc_url@.len() == 0,
            r.typecho_username@.len() == 0,
            r.typecho_password@.len() == 0,
    {
        StoredPublishSettings {
            notion_token: String::new(),
            notion_parent_page_id: String::new(),
            typecho_xmlrpc_url: String::new(),
            typecho_username: String::new(),
            typecho_password: String::new(),
        }
    }
}

/// What a request to Notion needs.
#[derive(Clone, Debug, PartialEq, Eq)]
pub struct NotionConfig {
    pub token: String,
    pub parent_page_id: String,
}

/// What a request to Typecho needs.
#[derive(Clone, Debug, PartialEq, Eq)]
pub struct TypechoConfig {
    pub xmlrpc_url: String,
    pub username: String,
    pub password: String,
}

/// The model of settings for Notion: the token and the parent page.
pub open spec fn notion_view(config: Option<NotionConfig>) -> Option<(Seq<char>, Seq<char>)> {
    match config {
        Some(c) => Some((c.token@, c.parent_page_id@)),
        None => None,
    }
}

/// The model of settings for Typecho: the address, the name and the password.
pub open spec fn typecho_view(config: Option<TypechoConfig>) -> Option<
    (Seq<char>, Seq<char>, Seq<char>),
> {
    match config {
        Some(c) => Some((c.xmlrpc_url@, c.username@, c.password@)),
        None => None,
    }
}

/// The settings for Notion that were entered, if both of them were.
pub open spec fn entered_notion(token: Seq<char>, parent: Seq<char>) -> Option<
    (Seq<char>, Seq<char>),
> {
    if is_blank(token) || is_blank(parent) {
        None
    } else {
        Some((trim_of(token), trim_of(parent)))
    }
}

/// The settings for Typecho that were entered, if all of them were.
pub open spec fn entered_typecho(url: Seq<char>, username: Seq<char>, password: Seq<char>) -> Option<
    (Seq<char>, Seq<char>, Seq<char>),
> {
    if is_blank(url) || is_blank(username) || is_blank(password) {
        None
    } else {
        Some((trim_of(url), trim_of(username), password))
    }
}

/// The settings for Notion of the environment, if both of them are set.
pub open spec fn notion_of_env(token: Option<Seq<char>>, parent: Option<Seq<char>>) -> Option<
    (Seq<char>, Seq<char>),
> {
    match (trimmed_value(token), trimmed_value(parent)) {
        (Some(token), Some(parent)) => Some((token, parent)),
        _ => None,
    }
}

/// The settings for Typecho of the environment, if all of them are set.
pub open spec fn typecho_of_env(
    url: Option<Seq<char>>,
    username: Option<Seq<char>>,
    password: Option<Seq<char>>,
) -> Option<(Seq<char>, Seq<char>, Seq<char>)> {
    match (trimmed_value(url), trimmed_value(username), trimmed_value(password)) {
        (Some(url), Some(username), Some(password)) => Some((url, username, password)),
        _ => None,
    }
}

impl StoredPublishSettings {
    /// The settings for Notion, if both of them were entered.
    pub fn notion_config(&self) -> (r: Option<NotionConfig>)
        ensures
            notion_view(r) == entered_notion(self.notion_token@, self.notion_parent_page_id@),
    {
        if blank(&self.notion_token) || blank(&self.notion_parent_page_id) {
            None
        } else {
            Some(
                NotionConfig {
                    token: trim(&self.notion_token),
                    parent_page_id: trim(&self.notion_parent_page_id),
                },
            )
        }
    }

    /// The settings for Typecho, if all of them were entered. The password is kept as it is.
    pub fn typecho_config(&self) -> (r: Option<TypechoConfig>)
        ensures
            typecho_view(r) == entered_typecho(
                self.typecho_xmlrpc_url@,
                self.typecho_username@,
                self.typecho_password@,
            ),
    {
        if blank(&self.typecho_xmlrpc_url) || blank(&self.typecho_username) || blank(
            &self.typecho_password,
        ) {
            None
        } else {
            Some(
                TypechoConfig {
                    xmlrpc_url: trim(&self.typecho_xmlrpc_url),
                    username: trim(&self.typecho_username),
                    password: self.typecho_password.clone(),
                },
            )
        }
    }
}

impl NotionConfig {
    /// The settings for Notion from the values of the environment variables
    /// `OPEN_LIVE_WRITER_NOTION_TOKEN` and `OPEN_LIVE_WRITER_NOTION_PARENT_PAGE_ID`.
    pub fn from_env(token: Option<String>, parent_page_id: Option<String>) -> (r: Option<
        NotionConfig,
    >)
        ensures
            notion_view(r) == notion_of_env(opt_text(token), opt_text(parent_page_id)),
    {
        match (env_var_trimmed(token), env_var_trimmed(parent_page_id)) {
            (Some(token), Some(parent_page_id)) => Some(NotionConfig { token, parent_page_id }),
            _ => None,
        }
    }
}

impl TypechoConfig {
    /// The settings for Typecho from the values of the environment variables
    /// `OPEN_LIVE_WRITER_TYPECHO_XMLRPC_URL`, `OPEN_LIVE_WRITER_TYPECHO_USERNAME` and
    /// `OPEN_LIVE_WRITER_TYPECHO_PASSWORD`.
    pub fn from_env(
        xmlrpc_url: Option<String>,
        username: Option<String>,
        password: Option<String>,
    ) -> (r: Option<TypechoConfig>)
        ensures
            typecho_view(r) == typecho_of_env(
                opt_text(xmlrpc_url),
                opt_text(username),
                opt_text(password),
            ),
    {
        match (env_var_trimmed(xmlrpc_url), env_var_trimmed(username), env_var_trimmed(password)) {
            (Some(xmlrpc_url), Some(username), Some(password)) => Some(
                TypechoConfig { xmlrpc_url, username, password },
            ),
            _ => None,
        }
    }
}

// ---------------------------------------------------------------------------
// Titles
// ---------------------------------------------------------------------------

/// The title of an article that has none.
pub open spec fn untitled() -> Seq<char> {
    "未命名文章"@
}

/// The title of an article, from the text of its first heading and of its first paragraph: at most
/// one hundred characters of the heading or, without one, of the paragraph.
pub open spec fn chosen_title(heading: Option<Seq<char>>, paragraph: Option<Seq<char>>) -> Seq<char> {
    let found = match heading {
        Some(s) => Some(s),
        None => paragraph,
    };
    match found {
        Some(s) => if is_blank(s) {
            untitled()
        } else {
            first_chars(s, 100)
        },
        None => untitled(),
    }
}

/// The text of inline Markdown without its markup.
pub open spec fn stripped(markdown: Seq<char>) -> Seq<char> {
    pieces_text(inline_pieces(markdown))
}

/// The plain text of the first heading.
pub open spec fn first_heading(blocks: Seq<BlockView>) -> Option<Seq<char>>
    decreases blocks.len(),
{
    if blocks.len() == 0 {
        None
    } else {
        match blocks[0] {
            BlockView::Heading { level, text } => Some(stripped(text)),
            _ => first_heading(blocks.skip(1)),
        }
    }
}

/// The plain text of the first paragraph.
pub open spec fn first_paragraph(blocks: Seq<BlockView>) -> Option<Seq<char>>
    decreases blocks.len(),
{
    if blocks.len() == 0 {
        None
    } else {
        match blocks[0] {
            BlockView::Paragraph(text) => Some(stripped(text)),
            _ => first_paragraph(blocks.skip(1)),
        }
    }
}

/// The title of an article.
pub open spec fn title_of(markdown: Seq<char>) -> Seq<char> {
    chosen_title(
        first_heading(document_blocks(markdown)),
        first_paragraph(document_blocks(markdown)),
    )
}

/// The title of an article, from the text of its first heading and of its first paragraph.
pub fn choose_title(heading: Option<String>, paragraph: Option<String>) -> (r: String)
    ensures
        r@ == chosen_title(opt_text(heading), opt_text(paragraph)),
{
    let found = match heading {
        Some(s) => Some(s),
        None => paragraph,
    };
    match found {
        Some(s) => if blank(&s) {
            "未命名文章".to_owned()
        } else {
            take_chars(&s, 100)
        },
        None => "未命名文章".to_owned(),
    }
}

fn find_heading(blocks: &Vec<Block>) -> (r: Option<String>)
    ensures
        opt_text(r) == first_heading(blocks_view(blocks@)),
{
    let ghost all = blocks_view(blocks@);
    let mut i: usize = 0;
    assert(all.skip(0) =~= all);
    while i < blocks.len()
        invariant
            i <= blocks.len(),
            all == blocks_view(blocks@),
            first_heading(all) == first_heading(all.skip(i as int)),
        decreases blocks.len() - i,
    {
        assert(all.skip(i as int)[0] == blocks@[i as int]@);
        assert(all.skip(i as int).skip(1) =~= all.skip(i + 1));
        if let Block::Heading { level, text } = &blocks[i] {
            return Some(strip_inline(text));
        }
        i = i + 1;
    }
    None
}

fn find_paragraph(blocks: &Vec<Block>) -> (r: Option<String>)
    ensures
        opt_text(r) == first_paragraph(blocks_view(blocks@)),
{
    let ghost all = blocks_view(blocks@);
    let mut i: usize = 0;
    assert(all.skip(0) =~= all);
    while i < blocks.len()
        invariant
            i <= blocks.len(),
            all == blocks_view(blocks@),
            first_paragraph(all) == first_paragraph(all.skip(i as int)),
        decreases blocks.len() - i,
    {
        assert(all.skip(i as int)[0] == blocks@[i as int]@);
        assert(all.skip(i as int).skip(1) =~= all.skip(i + 1));
        if let Block::Paragraph(text) = &blocks[i] {
            return Some(strip_inline(text));
        }
        i = i + 1;
    }
    None
}

/// The title of an article: its first heading or, without one, its first paragraph.
pub fn document_title(markdown: &str) -> (r: String)
    ensures
        r@ == title_of(markdown@),
{
    let blocks = parse_blocks(markdown);
    choose_title(find_heading(&blocks), find_paragraph(&blocks))
}

// ---------------------------------------------------------------------------
// Images
// ---------------------------------------------------------------------------

/// The address can be reached by others.
pub open spec fn is_public(url: Seq<char>) -> bool {
    has_prefix(ascii_lower(trim_of(url)), "https://"@) || has_prefix(
        ascii_lower(trim_of(url)),
        "http://"@,
    )
}

pub fn is_public_url(url: &str) -> (r: bool)
    ensures
        r == is_public(url@),
{
    let cs = chars_of(&to_ascii_lowercase(&trim(url)));
    starts_with(&cs, "https://") || starts_with(&cs, "http://")
}

/// The address names a local file.
pub fn is_file_url(url: &str) -> (r: bool)
    ensures
        r == has_prefix(ascii_lower(trim_of(url@)), "file://"@),
{
    let cs = chars_of(&to_ascii_lowercase(&trim(url)));
    starts_with(&cs, "file://")
}

/// An image that others cannot reach.
#[derive(Clone, Debug, PartialEq, Eq)]
pub struct LocalImage {
    pub alt: String,
    pub url: String,
}

impl View for LocalImage {
    type V = (Seq<char>, Seq<char>);

    open spec fn view(&self) -> (Seq<char>, Seq<char>) {
        (self.alt@, self.url@)
    }
}

pub open spec fn images_view(images: Seq<LocalImage>) -> Seq<(Seq<char>, Seq<char>)> {
    images.map_values(|image: LocalImage| image@)
}

/// The images among the blocks that others cannot reach, as pairs of description and address.
pub open spec fn local_images_in(blocks: Seq<BlockView>) -> Seq<(Seq<char>, Seq<char>)>
    decreases blocks.len(),
{
    if blocks.len() == 0 {
        Seq::empty()
    } else {
        let before = local_images_in(blocks.drop_last());
        match blocks.last() {
            BlockView::Image { alt, url } => if is_public(url) {
                before
            } else {
                before.push((alt, url))
            },
            _ => before,
        }
    }
}

/// The images among the blocks that others cannot reach.
pub fn local_images_of(blocks: &Vec<Block>) -> (r: Vec<LocalImage>)
    ensures
        images_view(r@) == local_images_in(blocks_view(blocks@)),
{
    let ghost all = blocks_view(blocks@);
    let mut out: Vec<LocalImage> = Vec::new();
    let mut i: usize = 0;
    assert(images_view(out@) =~= local_images_in(all.take(0)));
    while i < blocks.len()
        invariant
            i <= blocks.len(),
            all == blocks_view(blocks@),
            images_view(out@) == local_images_in(all.take(i as int)),
        decreases blocks.len() - i,
    {
        assert(all.take(i + 1).drop_last() =~= all.take(i as int));
        assert(all.take(i + 1).last() == blocks@[i as int]@);
        if let Block::Image { alt, url } = &blocks[i] {
            if !is_public_url(url) {
                let image = LocalImage { alt: alt.clone(), url: url.clone() };
                assert(images_view(out@.push(image)) =~= images_view(out@).push(image@));
                out.push(image);
            }
        }
        i = i + 1;
    }
    assert(all.take(i as int) =~= all);
    out
}

/// The images of an article that others cannot reach.
pub fn local_images(markdown: &str) -> (r: Vec<LocalImage>)
    ensures
        images_view(r@) == local_images_in(document_blocks(markdown@)),
{
    local_images_of(&parse_blocks(markdown))
}

/// The number of images whose address is not that of a file.
pub open spec fn count_other_images(images: Seq<(Seq<char>, Seq<char>)>) -> nat
    decreases images.len(),
{
    if images.len() == 0 {
        0
    } else {
        count_other_images(images.drop_last()) + if contains_text(
            ascii_lower(images.last().1),
            "file://"@,
        ) {
            0nat
        } else {
            1nat
        }
    }
}

/// The number of images whose address is not that of a file.
pub fn other_image_count(images: &Vec<LocalImage>) -> (n: usize)
    ensures
        n == count_other_images(images_view(images@)),
{
    let ghost all = images_view(images@);
    let mut n: usize = 0;
    let mut i: usize = 0;
    while i < images.len()
        invariant
            n <= i <= images.len(),
            all == images_view(images@),
            n == count_other_images(all.take(i as int)),
        decreases images.len() - i,
    {
        assert(all.take(i + 1).drop_last() =~= all.take(i as int));
        assert(all.take(i + 1).last() == images@[i as int]@);
        if !contains(&to_ascii_lowercase(&images[i].url), "file://") {
            n = n + 1;
        }
        i = i + 1;
    }
    assert(all.take(i as int) =~= all);
    n
}

/// The number of places in an article that name a local file, and of other local images.
pub open spec fn local_places(markdown: Seq<char>) -> nat {
    count_of(ascii_lower(markdown), "file://"@) + count_other_images(
        local_images_in(document_blocks(markdown)),
    )
}

/// The number of places in an article that others will not see, as far as it can be counted.
pub fn local_image_count(markdown: &str) -> (n: usize)
    ensures
        local_places(markdown@) <= usize::MAX ==> n == local_places(markdown@),
{
    proof {
        reveal_strlit("file://");
    }
    let files: usize = count_matches(&to_ascii_lowercase(markdown), "file://");
    let others: usize = other_image_count(&local_images(markdown));
    files.wrapping_add(others)
}

/// The article with the address of an image or link changed.
pub open spec fn with_address(markdown: Seq<char>, from: Seq<char>, to: Seq<char>) -> Seq<char> {
    replace_all(markdown, "]("@ + from + ")"@, "]("@ + to + ")"@)
}

/// The article with the address of an image or link changed.
pub fn replace_image_url(markdown: &str, from: &str, to: &str) -> (r: String)
    ensures
        r@ == with_address(markdown@, from@, to@),
{
    proof {
        reveal_strlit("](");
    }
    let old_link = concat3("](", from, ")");
    let new_link = concat3("](", to, ")");
    replace(markdown, &old_link, &new_link)
}

// ---------------------------------------------------------------------------
// HTML
// ---------------------------------------------------------------------------

/// The HTML of a document in GitHub Flavored Markdown, as the crate `markdown` writes it; nothing
/// where it refuses the document.
pub uninterp spec fn gfm_html(markdown: Seq<char>) -> Option<Seq<char>>;

/// `markdown::to_html_with_options` with the options of `markdown::Options::gfm`: the HTML of the
/// document, which depends on the document alone.
#[verifier::external_body]
fn to_html(markdown: &str) -> (r: Option<String>)
    ensures
        opt_text(r) == gfm_html(markdown@),
{
    ::markdown::to_html_with_options(markdown, &::markdown::Options::gfm()).ok()
}

/// The HTML that was made of an article, or the article itself where none could be made.
pub fn html_or_source(html: Option<String>, markdown: &str) -> (r: String)
    ensures
        r@ == match html {
            Some(s) => s@,
            None => markdown@,
        },
{
    match html {
        Some(s) => s,
        None => markdown.to_owned(),
    }
}

/// The HTML of an article; the article itself where it has none.
pub open spec fn html_of(markdown: Seq<char>) -> Seq<char> {
    match gfm_html(markdown) {
        Some(html) => html,
        None => markdown,
    }
}

/// Typecho's MetaWeblog endpoint renders the post body as HTML, so convert the
/// Markdown source before sending it.
pub fn markdown_to_html(markdown: &str) -> (r: String)
    ensures
        r@ == html_of(markdown@),
{
    html_or_source(to_html(markdown), markdown)
}

// ---------------------------------------------------------------------------
// Base64
// ---------------------------------------------------------------------------

/// The character for six bits.
pub open spec fn base64_char(n: int) -> char {
    if n < 26 {
        ((65 + n) as u8) as char
    } else if n < 52 {
        ((71 + n) as u8) as char
    } else if n < 62 {
        ((n - 4) as u8) as char
    } else if n == 62 {
        '+'
    } else {
        '/'
    }
}

/// Bytes in Base64: four characters for each three bytes, filled up with equals signs.
pub open spec fn base64(bytes: Seq<u8>) -> Seq<char>
    decreases bytes.len(),
{
    if bytes.len() == 0 {
        Seq::empty()
    } else {
        let b0 = bytes[0] as int;
        let b1 = if bytes.len() > 1 {
            bytes[1] as int
        } else {
            0
        };
        let b2 = if bytes.len() > 2 {
            bytes[2] as int
        } else {
            0
        };
        let group = seq![
            base64_char(b0 / 4),
            base64_char((b0 % 4) * 16 + b1 / 16),
            if bytes.len() > 1 {
                base64_char((b1 % 16) * 4 + b2 / 64)
            } else {
                '='
            },
            if bytes.len() > 2 {
                base64_char(b2 % 64)
            } else {
                '='
            },
        ];
        if bytes.len() <= 3 {
            group
        } else {
            group + base64(bytes.skip(3))
        }
    }
}

fn base64_digit(n: u8) -> (c: char)
    requires
        n < 64,
    ensures
        c == base64_char(n as int),
{
    if n < 26 {
        (65 + n) as char
    } else if n < 52 {
        (71 + n) as char
    } else if n < 62 {
        (n - 4) as char
    } else if n == 62 {
        '+'
    } else {
        '/'
    }
}

/// Bytes in Base64.
pub fn encode_base64(bytes: &[u8]) -> (r: String)
    ensures
        r@ == base64(bytes@),
{
    let mut out = String::new();
    let mut index: usize = 0;
    assert(bytes@.skip(0) =~= bytes@);
    assert(out@ + base64(bytes@) =~= base64(bytes@));
    while index < bytes.len()
        invariant
            index <= bytes@.len(),
            out@ + base64(bytes@.skip(index as int)) == base64(bytes@),
        decreases bytes@.len() - index,
    {
        let ghost before = out@;
        let ghost rest = bytes@.skip(index as int);
        let remaining: usize = bytes.len() - index;
        let b0: u8 = bytes[index];
        let b1: u8 = if remaining > 1 {
            bytes[index + 1]
        } else {
            0
        };
        let b2: u8 = if remaining > 2 {
            bytes[index + 2]
        } else {
            0
        };
        out.push(base64_digit(b0 / 4));
        out.push(base64_digit((b0 % 4) * 16 + b1 / 16));
        if remaining > 1 {
            out.push(base64_digit((b1 % 16) * 4 + b2 / 64));
        } else {
            out.push('=');
        }
        if remaining > 2 {
            out.push(base64_digit(b2 % 64));
        } else {
            out.push('=');
        }
        let step: usize = if remaining > 3 {
            3
        } else {
            remaining
        };
        proof {
            let group = out@.skip(before.len() as int);
            assert(out@ =~= before + group);
            if remaining > 3 {
                assert(rest.skip(3) =~= bytes@.skip(index + 3));
                assert(base64(rest) =~= group + base64(rest.skip(3)));
                assert(before + (group + base64(rest.skip(3))) =~= out@ + base64(rest.skip(3)));
            } else {
                assert(base64(rest) =~= group);
                assert(bytes@.skip(index + step) =~= Seq::empty());
                assert(out@ + Seq::empty() =~= before + group);
            }
        }
        index = index + step;
    }
    assert(out@ + Seq::empty() =~= out@);
    out
}

// ---------------------------------------------------------------------------
// XML
// ---------------------------------------------------------------------------

/// A character as XML text has it.
pub open spec fn xml_char(c: char) -> Seq<char> {
    if c == '&' {
        "&amp;"@
    } else if c == '<' {
        "&lt;"@
    } else if c == '>' {
        "&gt;"@
    } else if c == '"' {
        "&quot;"@
    } else if c == '\'' {
        "&apos;"@
    } else {
        seq![c]
    }
}

/// A text as XML text has it.
pub open spec fn xml_escaped(s: Seq<char>) -> Seq<char>
    decreases s.len(),
{
    if s.len() == 0 {
        Seq::empty()
    } else {
        xml_escaped(s.drop_last()) + xml_char(s.last())
    }
}

/// A text with entities in place of the characters that XML reserves.
pub fn xml_escape(value: &str) -> (r: String)
    ensures
        r@ == xml_escaped(value@),
{
    let cs = chars_of(value);
    let mut out = String::new();
    let mut i: usize = 0;
    while i < cs.len()
        invariant
            i <= cs.len(),
            out@ == xml_escaped(cs@.take(i as int)),
        decreases cs.len() - i,
    {
        assert(cs@.take(i + 1).drop_last() =~= cs@.take(i as int));
        let c = cs[i];
        if c == '&' {
            push_text(&mut out, "&amp;");
        } else if c == '<' {
            push_text(&mut out, "&lt;");
        } else if c == '>' {
            push_text(&mut out, "&gt;");
        } else if c == '"' {
            push_text(&mut out, "&quot;");
        } else if c == '\'' {
            push_text(&mut out, "&apos;");
        } else {
            out.push(c);
            assert(out@ =~= xml_escaped(cs@.take(i as int)) + seq![c]);
        }
        i = i + 1;
    }
    assert(cs@.take(i as int) =~= cs@);
    out
}

/// What stands between the first opening tag of this name and the next closing one.
pub open spec fn xml_tag(response: Seq<char>, tag: Seq<char>) -> Option<Seq<char>> {
    let open = "<"@ + tag + ">"@;
    let close = "</"@ + tag + ">"@;
    match find_from(response, open, 0) {
        Some(i) => match find_from(response, close, i + open.len()) {
            Some(j) => Some(response.subrange(i + open.len(), j)),
            None => None,
        },
        None => None,
    }
}

/// What the first of the tags for values holds.
pub open spec fn xml_value(response: Seq<char>) -> Option<Seq<char>> {
    match xml_tag(response, "string"@) {
        Some(s) => Some(s),
        None => match xml_tag(response, "int"@) {
            Some(s) => Some(s),
            None => xml_tag(response, "i4"@),
        },
    }
}

pub fn extract_xml_tag(response: &str, tag: &str) -> (r: Option<String>)
    ensures
        opt_text(r) == xml_tag(response@, tag@),
{
    let open = chars_of(&concat3("<", tag, ">"));
    let close = chars_of(&concat3("</", tag, ">"));
    let cs = chars_of(response);
    let total: usize = cs.len();
    match find_at(&cs, &open, 0) {
        Some(i) => match find_at(&cs, &close, i + open.len()) {
            Some(j) => Some(slice_of(&cs, i + open.len(), j)),
            None => None,
        },
        None => None,
    }
}

pub fn extract_xml_value(response: &str) -> (r: Option<String>)
    ensures
        opt_text(r) == xml_value(response@),
{
    if let Some(value) = extract_xml_tag(response, "string") {
        return Some(value);
    }
    if let Some(value) = extract_xml_tag(response, "int") {
        return Some(value);
    }
    extract_xml_tag(response, "i4")
}

// ---------------------------------------------------------------------------
// Replies
// ---------------------------------------------------------------------------

/// The reply says that the request succeeded.
pub open spec fn is_success(status: u16) -> bool {
    200 <= status < 300
}

pub fn status_is_success(status: u16) -> (r: bool)
    ensures
        r == is_success(status),
{
    200 <= status && status < 300
}

/// The start of a reply, as a message can quote it.
pub fn response_text(body: &[u8]) -> (r: String)
    ensures
        r@ == first_chars(lossy_text(body@), 500),
{
    take_chars(&utf8_lossy(body), 500)
}

} // verus!

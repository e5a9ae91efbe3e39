//! Syntax trees of Markdown documents, as the crate `markdown` builds them.

use vstd::prelude::*;

verus! {

/// `markdown::mdast::Root`: the node, with its public fields.
#[verifier::external_type_specification]
pub struct ExRoot(::markdown::mdast::Root);

/// `markdown::mdast::Paragraph`: the node, with its public fields.
#[verifier::external_type_specification]
pub struct ExParagraph(::markdown::mdast::Paragraph);

/// `markdown::mdast::Heading`: the node, with its public fields.
#[verifier::external_type_specification]
pub struct ExHeading(::markdown::mdast::Heading);

/// `markdown::mdast::ThematicBreak`: the node, with its public fields.
#[verifier::external_type_specification]
pub struct ExThematicBreak(::markdown::mdast::ThematicBreak);

/// `markdown::mdast::Blockquote`: the node, with its public fields.
#[verifier::external_type_specification]
pub struct ExBlockquote(::markdown::mdast::Blockquote);

/// `markdown::mdast::List`: the node, with its public fields.
#[verifier::external_type_specification]
pub struct ExList(::markdown::mdast::List);

/// `markdown::mdast::ListItem`: the node, with its public fields.
#[verifier::external_type_specification]
pub struct ExListItem(::markdown::mdast::ListItem);

/// `markdown::mdast::Html`: the node, with its public fields.
#[verifier::external_type_specification]
pub struct ExHtml(::markdown::mdast::Html);

/// `markdown::mdast::Code`: the node, with its public fields.
#[verifier::external_type_specification]
pub struct ExCode(::markdown::mdast::Code);

/// `markdown::mdast::Text`: the node, with its public fields.
#[verifier::external_type_specification]
pub struct ExText(::markdown::mdast::Text);

/// `markdown::mdast::Emphasis`: the node, with its public fields.
#[verifier::external_type_specification]
pub struct ExEmphasis(::markdown::mdast::Emphasis);

/// `markdown::mdast::Strong`: the node, with its public fields.
#[verifier::external_type_specification]
pub struct ExStrong(::markdown::mdast::Strong);

/// `markdown::mdast::InlineCode`: the node, with its public fields.
#[verifier::external_type_specification]
pub struct ExInlineCode(::markdown::mdast::InlineCode);

/// `markdown::mdast::InlineMath`: the node, with its public fields.
#[verifier::external_type_specification]
pub struct ExInlineMath(::markdown::mdast::InlineMath);

/// `markdown::mdast::Break`: the node, with its public fields.
#[verifier::external_type_specification]
pub struct ExBreak(::markdown::mdast::Break);

/// `markdown::mdast::Link`: the node, with its public fields.
#[verifier::external_type_specification]
pub struct ExLink(::markdown::mdast::Link);

/// `markdown::mdast::Image`: the node, with its public fields.
#[verifier::external_type_specification]
pub struct ExImage(::markdown::mdast::Image);

/// `markdown::mdast::Table`: the node, with its public fields.
#[verifier::external_type_specification]
pub struct ExTable(::markdown::mdast::Table);

/// `markdown::mdast::TableRow`: the node, with its public fields.
#[verifier::external_type_specification]
pub struct ExTableRow(::markdown::mdast::TableRow);

/// `markdown::mdast::TableCell`: the node, with its public fields.
#[verifier::external_type_specification]
pub struct ExTableCell(::markdown::mdast::TableCell);

/// `markdown::mdast::Delete`: the node, with its public fields.
#[verifier::external_type_specification]
pub struct ExDelete(::markdown::mdast::Delete);

/// `markdown::mdast::Node`: a node of a syntax tree, with its public variants.
#[verifier::external_type_specification]
pub struct ExNode(::markdown::mdast::Node);

/// `markdown::mdast::Math`, carried but never read.
#[verifier::external_type_specification]
#[verifier::external_body]
pub struct ExMath(::markdown::mdast::Math);

/// `markdown::mdast::Definition`, carried but never read.
#[verifier::external_type_specification]
#[verifier::external_body]
pub struct ExDefinition(::markdown::mdast::Definition);

/// `markdown::mdast::LinkReference`, carried but never read.
#[verifier::external_type_specification]
#[verifier::external_body]
pub struct ExLinkReference(::markdown::mdast::LinkReference);

/// `markdown::mdast::ImageReference`, carried but never read.
#[verifier::external_type_specification]
#[verifier::external_body]
pub struct ExImageReference(::markdown::mdast::ImageReference);

/// `markdown::mdast::FootnoteDefinition`, carried but never read.
#[verifier::external_type_specification]
#[verifier::external_body]
pub struct ExFootnoteDefinition(::markdown::mdast::FootnoteDefinition);

/// `markdown::mdast::FootnoteReference`, carried but never read.
#[verifier::external_type_specification]
#[verifier::external_body]
pub struct ExFootnoteReference(::markdown::mdast::FootnoteReference);

/// `markdown::mdast::Yaml`, carried but never read.
#[verifier::external_type_specification]
#[verifier::external_body]
pub struct ExYaml(::markdown::mdast::Yaml);

/// `markdown::mdast::Toml`, carried but never read.
#[verifier::external_type_specification]
#[verifier::external_body]
pub struct ExToml(::markdown::mdast::Toml);

/// `markdown::mdast::MdxjsEsm`, carried but never read.
#[verifier::external_type_specification]
#[verifier::external_body]
pub struct ExMdxjsEsm(::markdown::mdast::MdxjsEsm);

/// `markdown::mdast::MdxFlowExpression`, carried but never read.
#[verifier::external_type_specification]
#[verifier::external_body]
pub struct ExMdxFlowExpression(::markdown::mdast::MdxFlowExpression);

/// `markdown::mdast::MdxTextExpression`, carried but never read.
#[verifier::external_type_specification]
#[verifier::external_body]
pub struct ExMdxTextExpression(::markdown::mdast::MdxTextExpression);

/// `markdown::mdast::MdxJsxFlowElement`, carried but never read.
#[verifier::external_type_specification]
#[verifier::external_body]
pub struct ExMdxJsxFlowElement(::markdown::mdast::MdxJsxFlowElement);

/// `markdown::mdast::MdxJsxTextElement`, carried but never read.
#[verifier::external_type_specification]
#[verifier::external_body]
pub struct ExMdxJsxTextElement(::markdown::mdast::MdxJsxTextElement);

/// `markdown::mdast::AlignKind`, carried but never read.
#[verifier::external_type_specification]
#[verifier::external_body]
pub struct ExAlignKind(::markdown::mdast::AlignKind);

/// `markdown::unist::Position`, carried but never read.
#[verifier::external_type_specification]
#[verifier::external_body]
pub struct ExPosition(::markdown::unist::Position);

/// A node of a syntax tree, with what the library reads of it. Nodes that it reads nothing of are
/// `Other`.
#[derive(Debug)]
pub enum MarkNode {
    Root(Vec<MarkNode>),
    Paragraph(Vec<MarkNode>),
    Blockquote(Vec<MarkNode>),
    Emphasis(Vec<MarkNode>),
    Strong(Vec<MarkNode>),
    Delete(Vec<MarkNode>),
    Table(Vec<MarkNode>),
    TableRow(Vec<MarkNode>),
    TableCell(Vec<MarkNode>),
    Html(String),
    Text(String),
    InlineCode(String),
    InlineMath(String),
    Heading { depth: u8, children: Vec<MarkNode> },
    List { ordered: bool, start: Option<u32>, children: Vec<MarkNode> },
    ListItem { checked: Option<bool>, children: Vec<MarkNode> },
    Code { value: String, lang: Option<String> },
    Link { url: String, children: Vec<MarkNode> },
    Image { alt: String, url: String },
    ThematicBreak,
    Break,
    Other,
}

/// The mathematical model of a node.
pub ghost enum Tree {
    Root(Seq<Tree>),
    Paragraph(Seq<Tree>),
    Blockquote(Seq<Tree>),
    Emphasis(Seq<Tree>),
    Strong(Seq<Tree>),
    Delete(Seq<Tree>),
    Table(Seq<Tree>),
    TableRow(Seq<Tree>),
    TableCell(Seq<Tree>),
    Html(Seq<char>),
    Text(Seq<char>),
    InlineCode(Seq<char>),
    InlineMath(Seq<char>),
    Heading { depth: u8, children: Seq<Tree> },
    List { ordered: bool, start: Option<u32>, children: Seq<Tree> },
    ListItem { checked: Option<bool>, children: Seq<Tree> },
    Code { value: Seq<char>, lang: Option<Seq<char>> },
    Link { url: Seq<char>, children: Seq<Tree> },
    Image { alt: Seq<char>, url: Seq<char> },
    ThematicBreak,
    Break,
    Other,
}

/// The view of an optional text.
pub open spec fn opt_text(o: Option<String>) -> Option<Seq<char>> {
    match o {
        Some(s) => Some(s@),
        None => None,
    }
}

/// The model of a node.
pub open spec fn tree_of(n: MarkNode) -> Tree
    decreases n,
{
    match n {
        MarkNode::Root(c) => Tree::Root(trees_of(c@)),
        MarkNode::Paragraph(c) => Tree::Paragraph(trees_of(c@)),
        MarkNode::Blockquote(c) => Tree::Blockquote(trees_of(c@)),
        MarkNode::Emphasis(c) => Tree::Emphasis(trees_of(c@)),
        MarkNode::Strong(c) => Tree::Strong(trees_of(c@)),
        MarkNode::Delete(c) => Tree::Delete(trees_of(c@)),
        MarkNode::Table(c) => Tree::Table(trees_of(c@)),
        MarkNode::TableRow(c) => Tree::TableRow(trees_of(c@)),
        MarkNode::TableCell(c) => Tree::TableCell(trees_of(c@)),
        MarkNode::Html(s) => Tree::Html(s@),
        MarkNode::Text(s) => Tree::Text(s@),
        MarkNode::InlineCode(s) => Tree::InlineCode(s@),
        MarkNode::InlineMath(s) => Tree::InlineMath(s@),
        MarkNode::Heading { depth, children } => Tree::Heading {
            depth,
            children: trees_of(children@),
        },
        MarkNode::List { ordered, start, children } => Tree::List {
            ordered,
            start,
            children: trees_of(children@),
        },
        MarkNode::ListItem { checked, children } => Tree::ListItem {
            checked,
            children: trees_of(children@),
        },
        MarkNode::Code { value, lang } => Tree::Code { value: value@, lang: opt_text(lang) },
        MarkNode::Link { url, children } => Tree::Link { url: url@, children: trees_of(children@) },
        MarkNode::Image { alt, url } => Tree::Image { alt: alt@, url: url@ },
        MarkNode::ThematicBreak => Tree::ThematicBreak,
        MarkNode::Break => Tree::Break,
        MarkNode::Other => Tree::Other,
    }
}

/// The models of some nodes.
pub open spec fn trees_of(s: Seq<MarkNode>) -> Seq<Tree>
    decreases s,
{
    if s.len() == 0 {
        Seq::empty()
    } else {
        trees_of(s.drop_last()).push(tree_of(s.last()))
    }
}

/// The model of a node of the crate `markdown`.
pub open spec fn parsed_tree(n: ::markdown::mdast::Node) -> Tree
    decreases n,
{
    match n {
        ::markdown::mdast::Node::Root(x) => Tree::Root(parsed_trees(x.children@)),
        ::markdown::mdast::Node::Paragraph(x) => Tree::Paragraph(parsed_trees(x.children@)),
        ::markdown::mdast::Node::Blockquote(x) => Tree::Blockquote(parsed_trees(x.children@)),
        ::markdown::mdast::Node::Emphasis(x) => Tree::Emphasis(parsed_trees(x.children@)),
        ::markdown::mdast::Node::Strong(x) => Tree::Strong(parsed_trees(x.children@)),
        ::markdown::mdast::Node::Delete(x) => Tree::Delete(parsed_trees(x.children@)),
        ::markdown::mdast::Node::Table(x) => Tree::Table(parsed_trees(x.children@)),
        ::markdown::mdast::Node::TableRow(x) => Tree::TableRow(parsed_trees(x.children@)),
        ::markdown::mdast::Node::TableCell(x) => Tree::TableCell(parsed_trees(x.children@)),
        ::markdown::mdast::Node::Html(x) => Tree::Html(x.value@),
        ::markdown::mdast::Node::Text(x) => Tree::Text(x.value@),
        ::markdown::mdast::Node::InlineCode(x) => Tree::InlineCode(x.value@),
        ::markdown::mdast::Node::InlineMath(x) => Tree::InlineMath(x.value@),
        ::markdown::mdast::Node::Heading(x) => Tree::Heading {
            depth: x.depth,
            children: parsed_trees(x.children@),
        },
        ::markdown::mdast::Node::List(x) => Tree::List {
            ordered: x.ordered,
            start: x.start,
            children: parsed_trees(x.children@),
        },
        ::markdown::mdast::Node::ListItem(x) => Tree::ListItem {
            checked: x.checked,
            children: parsed_trees(x.children@),
        },
        ::markdown::mdast::Node::Code(x) => Tree::Code { value: x.value@, lang: opt_text(x.lang) },
        ::markdown::mdast::Node::Link(x) => Tree::Link {
            url: x.url@,
            children: parsed_trees(x.children@),
        },
        ::markdown::mdast::Node::Image(x) => Tree::Image { alt: x.alt@, url: x.url@ },
        ::markdown::mdast::Node::ThematicBreak(_) => Tree::ThematicBreak,
        ::markdown::mdast::Node::Break(_) => Tree::Break,
        _ => Tree::Other,
    }
}

/// The models of some nodes of the crate `markdown`.
pub open spec fn parsed_trees(s: Seq<::markdown::mdast::Node>) -> Seq<Tree>
    decreases s,
{
    if s.len() == 0 {
        Seq::empty()
    } else {
        parsed_trees(s.drop_last()).push(parsed_tree(s.last()))
    }
}

/// The syntax tree of a document in GitHub Flavored Markdown, as the crate `markdown` builds it;
/// nothing where it refuses the document.
pub uninterp spec fn gfm_tree(markdown: Seq<char>) -> Option<Tree>;

/// `markdown::to_mdast` with the options of `markdown::ParseOptions::gfm`: the syntax tree of the
/// document, which depends on the document alone.
#[verifier::external_body]
fn to_mdast(markdown: &str) -> (r: Option<::markdown::mdast::Node>)
    ensures
        match r {
            Some(n) => gfm_tree(markdown@) == Some(parsed_tree(n)),
            None => gfm_tree(markdown@) is None,
        },
{
    ::markdown::to_mdast(markdown, &::markdown::ParseOptions::gfm()).ok()
}

pub proof fn lemma_trees_of(s: Seq<MarkNode>)
    ensures
        trees_of(s).len() == s.len(),
        forall|k: int| 0 <= k < s.len() ==> trees_of(s)[k] == tree_of(#[trigger] s[k]),
    decreases s.len(),
{
    if s.len() > 0 {
        lemma_trees_of(s.drop_last());
        assert forall|k: int| 0 <= k < s.len() implies trees_of(s)[k] == tree_of(#[trigger] s[k]) by {
            if k < s.len() - 1 {
                assert(s.drop_last()[k] == s[k]);
            }
        }
    }
}

fn copy_option(o: &Option<String>) -> (r: Option<String>)
    ensures
        opt_text(r) == opt_text(*o),
{
    match o {
        Some(s) => Some(s.clone()),
        None => None,
    }
}

fn convert(n: &::markdown::mdast::Node) -> (r: MarkNode)
    ensures
        tree_of(r) == parsed_tree(*n),
    decreases n,
{
    match n {
        ::markdown::mdast::Node::Root(x) => MarkNode::Root(convert_all(&x.children)),
        ::markdown::mdast::Node::Paragraph(x) => MarkNode::Paragraph(convert_all(&x.children)),
        ::markdown::mdast::Node::Blockquote(x) => MarkNode::Blockquote(convert_all(&x.children)),
        ::markdown::mdast::Node::Emphasis(x) => MarkNode::Emphasis(convert_all(&x.children)),
        ::markdown::mdast::Node::Strong(x) => MarkNode::Strong(convert_all(&x.children)),
        ::markdown::mdast::Node::Delete(x) => MarkNode::Delete(convert_all(&x.children)),
        ::markdown::mdast::Node::Table(x) => MarkNode::Table(convert_all(&x.children)),
        ::markdown::mdast::Node::TableRow(x) => MarkNode::TableRow(convert_all(&x.children)),
        ::markdown::mdast::Node::TableCell(x) => MarkNode::TableCell(convert_all(&x.children)),
        ::markdown::mdast::Node::Html(x) => MarkNode::Html(x.value.clone()),
        ::markdown::mdast::Node::Text(x) => MarkNode::Text(x.value.clone()),
        ::markdown::mdast::Node::InlineCode(x) => MarkNode::InlineCode(x.value.clone()),
        ::markdown::mdast::Node::InlineMath(x) => MarkNode::InlineMath(x.value.clone()),
        ::markdown::mdast::Node::Heading(x) => MarkNode::Heading {
            depth: x.depth,
            children: convert_all(&x.children),
        },
        ::markdown::mdast::Node::List(x) => MarkNode::List {
            ordered: x.ordered,
            start: x.start,
            children: convert_all(&x.children),
        },
        ::markdown::mdast::Node::ListItem(x) => MarkNode::ListItem {
            checked: x.checked,
            children: convert_all(&x.children),
        },
        ::markdown::mdast::Node::Code(x) => MarkNode::Code {
            value: x.value.clone(),
            lang: copy_option(&x.lang),
        },
        ::markdown::mdast::Node::Link(x) => MarkNode::Link {
            url: x.url.clone(),
            children: convert_all(&x.children),
        },
        ::markdown::mdast::Node::Image(x) => MarkNode::Image {
            alt: x.alt.clone(),
            url: x.url.clone(),
        },
        ::markdown::mdast::Node::ThematicBreak(_) => MarkNode::ThematicBreak,
        ::markdown::mdast::Node::Break(_) => MarkNode::Break,
        _ => MarkNode::Other,
    }
}

fn convert_all(v: &Vec<::markdown::mdast::Node>) -> (r: Vec<MarkNode>)
    ensures
        trees_of(r@) == parsed_trees(v@),
    decreases v,
{
    let mut out: Vec<MarkNode> = Vec::new();
    let mut i: usize = 0;
    while i < v.len()
        invariant
            i <= v.len(),
            trees_of(out@) == parsed_trees(v@.take(i as int)),
        decreases v.len() - i,
    {
        assert(decreases_to!(v => v@[i as int]));
        let node = convert(&v[i]);
        assert(v@.take(i + 1).drop_last() =~= v@.take(i as int));
        assert(out@.push(node).drop_last() =~= out@);
        out.push(node);
        i = i + 1;
    }
    assert(v@.take(i as int) =~= v@);
    out
}

/// The syntax tree of a document in GitHub Flavored Markdown.
pub fn parse_tree(markdown: &str) -> (r: Option<MarkNode>)
    ensures
        match r {
            Some(n) => gfm_tree(markdown@) == Some(tree_of(n)),
            None => gfm_tree(markdown@) is None,
        },
{
    match to_mdast(markdown) {
        Some(n) => Some(convert(&n)),
        None => None,
    }
}

} // verus!

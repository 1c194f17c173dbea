//! Previews: the first characters of the paragraphs of a rendered post.

use vstd::prelude::*;
use crate::text::{char_count, first_chars, same_text};

verus! {

/// A node of a parsed HTML document: the name of its tag where it is an
/// element, and the text inside it, without markup.
pub struct HtmlNode {
    pub tag: Option<String>,
    pub text: String,
}

/// The mathematical value of an `HtmlNode`: tag name and inner text.
pub type NodeText = (Option<Seq<char>>, Seq<char>);

/// The values of a list of nodes.
pub open spec fn node_texts(v: Seq<HtmlNode>) -> Seq<NodeText> {
    Seq::new(
        v.len(),
        |i: int|
            (
                match v[i].tag {
                    Some(t) => Some(t@),
                    None => None,
                },
                v[i].text@,
            ),
    )
}

/// The nodes that `tl` finds in an HTML text, all of them, nested ones too,
/// in the order of the document; `None` where `tl` refuses the text.
pub uninterp spec fn html_nodes(html: Seq<char>) -> Option<Seq<NodeText>>;

/// Trusted: `tl::parse` with the default options, then, for each node of
/// `VDom::nodes`, the name of the tag that `Node::as_tag` gives and the text
/// that `Node::inner_text` gives.  The result is a function of the text
/// alone; it is `None` where `tl::parse` returns its error.
#[verifier::external_body]
fn parse_html(html: &str) -> (r: Option<Vec<HtmlNode>>)
    ensures
        match r {
            Some(v) => html_nodes(html@) == Some(node_texts(v@)),
            None => html_nodes(html@) is None,
        },
{
    let dom = tl::parse(html, tl::ParserOptions::default()).ok()?;
    let parser = dom.parser();
    let node = |n: &tl::Node| HtmlNode {
        tag: n.as_tag().map(|t| t.name().as_utf8_str().into_owned()),
        text: n.inner_text(parser).into_owned(),
    };
    Some(dom.nodes().iter().map(node).collect())
}

/// Whether a node is a paragraph, an element named `p`.
pub open spec fn is_paragraph(node: NodeText) -> bool {
    node.0 == Some("p"@)
}

/// The texts of the paragraphs among `nodes`, one after the other.
pub open spec fn paragraph_text(nodes: Seq<NodeText>) -> Seq<char>
    decreases nodes.len(),
{
    if nodes.len() == 0 {
        Seq::empty()
    } else if is_paragraph(nodes.last()) {
        paragraph_text(nodes.drop_last()) + nodes.last().1
    } else {
        paragraph_text(nodes.drop_last())
    }
}

/// The number of characters of a preview where none is asked for.
pub open spec fn default_preview_chars() -> nat {
    320
}

/// The number of characters that a preview may have.
pub open spec fn preview_budget(preview_chars: Option<usize>) -> nat {
    match preview_chars {
        Some(n) => n as nat,
        None => default_preview_chars(),
    }
}

/// The first `n` characters of `s`; all of `s` where it has no more.
pub open spec fn truncated(s: Seq<char>, n: nat) -> Seq<char> {
    if s.len() <= n {
        s
    } else {
        s.take(n as int)
    }
}

/// The preview of a rendered post: the first `budget` characters of the
/// text of its paragraphs.  HTML that cannot be parsed has an empty one.
pub open spec fn preview_of(html: Seq<char>, budget: nat) -> Seq<char> {
    match html_nodes(html) {
        Some(nodes) => truncated(paragraph_text(nodes), budget),
        None => Seq::empty(),
    }
}

/// The paragraph text of the first nodes starts the paragraph text of all.
pub proof fn lemma_paragraph_text_prefix(nodes: Seq<NodeText>, i: int)
    requires
        0 <= i <= nodes.len(),
    ensures
        paragraph_text(nodes.take(i)).len() <= paragraph_text(nodes).len(),
        paragraph_text(nodes.take(i)) == paragraph_text(nodes).take(
            paragraph_text(nodes.take(i)).len() as int,
        ),
    decreases nodes.len() - i,
{
    if i == nodes.len() {
        assert(nodes.take(i) =~= nodes);
        assert(paragraph_text(nodes).take(paragraph_text(nodes).len() as int) =~= paragraph_text(
            nodes,
        ));
    } else {
        lemma_paragraph_text_prefix(nodes, i + 1);
        let longer = nodes.take(i + 1);
        assert(longer.drop_last() =~= nodes.take(i));
        let a = paragraph_text(nodes.take(i));
        let b = paragraph_text(longer);
        let all = paragraph_text(nodes);
        assert(a =~= b.take(a.len() as int));
        assert(b.take(a.len() as int) =~= all.take(b.len() as int).take(a.len() as int));
        assert(a =~= all.take(a.len() as int));
    }
}

/// A preview is never longer than its budget.
pub proof fn lemma_preview_bound(html: Seq<char>, budget: nat)
    ensures
        preview_of(html, budget).len() <= budget,
{
}

/// The preview of a parsed document: the text of its paragraphs, the
/// elements named `p`, in the order of the nodes, cut after `preview_chars`
/// characters, 320 where none is given.
pub fn preview_of_nodes(nodes: &Vec<HtmlNode>, preview_chars: Option<usize>) -> (preview: String)
    ensures
        preview@ == truncated(paragraph_text(node_texts(nodes@)), preview_budget(preview_chars)),
        preview@.len() <= preview_budget(preview_chars),
{
    let num_chars: usize = match preview_chars {
        Some(x) => x,
        None => 320,
    };
    let ghost all = node_texts(nodes@);
    let mut preview = String::new();
    let mut i: usize = 0;
    proof {
        assert(all.take(0) =~= Seq::<NodeText>::empty());
    }
    while i < nodes.len() && char_count(preview.as_str()) <= num_chars
        invariant
            i <= nodes.len(),
            all == node_texts(nodes@),
            preview@ == paragraph_text(all.take(i as int)),
        decreases nodes.len() - i,
    {
        let node = &nodes[i];
        let paragraph: bool = match &node.tag {
            Some(name) => same_text(name.as_str(), "p"),
            None => false,
        };
        proof {
            let longer = all.take(i + 1);
            assert(longer.drop_last() =~= all.take(i as int));
            assert(longer.last() == all[i as int]);
            assert(paragraph == is_paragraph(all[i as int]));
        }
        if paragraph {
            preview.append(node.text.as_str());
        }
        i += 1;
    }
    proof {
        lemma_paragraph_text_prefix(all, i as int);
        if i == nodes.len() {
            assert(all.take(i as int) =~= all);
        }
        let whole = paragraph_text(all);
        if preview@.len() > num_chars {
            assert(preview@.take(num_chars as int) =~= whole.take(num_chars as int));
        }
    }
    first_chars(preview.as_str(), num_chars)
}

/// Extracts the preview of a rendered post: parses the HTML and takes the
/// preview of its nodes.  HTML that cannot be parsed has an empty preview.
pub fn get_preview(html: &String, preview_chars: Option<usize>) -> (preview: String)
    ensures
        preview@ == preview_of(html@, preview_budget(preview_chars)),
        preview@.len() <= preview_budget(preview_chars),
{
    match parse_html(html.as_str()) {
        Some(nodes) => preview_of_nodes(&nodes, preview_chars),
        None => String::new(),
    }
}

} // verus!

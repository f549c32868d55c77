use vstd::prelude::*;
use vstd::string::StrSliceExecFns;
use vstd::string::StringExecFns;
use crate::node::Node;
use crate::resolver::LinkIndex;
use crate::resolver::lookup;
use crate::wikify::append_wikified;
use crate::wikify::push_char;
use crate::wikify::wikify;

verus! {

/// Choices that vary the rendered output.
pub struct RenderConfig {
    /// When set, resolved internal link titles are normalized with
    /// [`crate::wikify::wikify`] before being embedded; when clear, the
    /// title is embedded verbatim.
    pub normalize_link_titles: bool,
}

impl Default for RenderConfig {
    /// Titles are embedded verbatim by default.
    fn default() -> (r: RenderConfig)
        ensures
            r.normalize_link_titles == false,
    {
        RenderConfig { normalize_link_titles: false }
    }
}

/// The rendered text together with the identifiers of the internal links
/// that the index could not resolve, in traversal order.
pub struct Rendered {
    pub text: String,
    pub warnings: Vec<String>,
}

/// `level` repetitions of '#'.
pub open spec fn hashes(level: nat) -> Seq<char> {
    Seq::new(level, |i: int| '#')
}

/// A whitespace character as the keyword-value trim understands it.
pub open spec fn is_space(c: char) -> bool {
    c == ' ' || c == '\t' || c == '\n' || c == '\r'
}

/// The case-insensitive marker ":id:" starts at position `i` of `t`.
pub open spec fn marker_at(t: Seq<char>, i: int) -> bool {
    &&& 0 <= i
    &&& i + 4 <= t.len()
    &&& t[i] == ':'
    &&& (t[i + 1] == 'i' || t[i + 1] == 'I')
    &&& (t[i + 2] == 'd' || t[i + 2] == 'D')
    &&& t[i + 3] == ':'
}

/// The text contains the case-insensitive substring ":id:". Such a text
/// run leaked out of a metadata drawer and is suppressed entirely.
pub open spec fn has_id_marker(t: Seq<char>) -> bool {
    exists|i: int| marker_at(t, i)
}

/// The text from position `i` on with every newline replaced by a newline
/// followed by the quote marker, so that continuation lines of a quoted
/// paragraph stay quoted.
pub open spec fn quoted_text_from(t: Seq<char>, i: int) -> Seq<char>
    decreases t.len() - i,
{
    if i < 0 || i >= t.len() {
        Seq::empty()
    } else if t[i] == '\n' {
        "\n> "@ + quoted_text_from(t, i + 1)
    } else {
        seq![t[i]] + quoted_text_from(t, i + 1)
    }
}

/// The whole text with every newline replaced by a newline plus quote
/// marker.
pub open spec fn quoted_text(t: Seq<char>) -> Seq<char> {
    quoted_text_from(t, 0)
}

/// `t` without its leading whitespace.
pub open spec fn trim_front(t: Seq<char>) -> Seq<char>
    decreases t.len(),
{
    if t.len() > 0 && is_space(t[0]) {
        trim_front(t.drop_first())
    } else {
        t
    }
}

/// `t` without its trailing whitespace.
pub open spec fn trim_back(t: Seq<char>) -> Seq<char>
    decreases t.len(),
{
    if t.len() > 0 && is_space(t[t.len() - 1]) {
        trim_back(t.drop_last())
    } else {
        t
    }
}

/// `t` without leading and trailing whitespace.
pub open spec fn trimmed(t: Seq<char>) -> Seq<char> {
    trim_back(trim_front(t))
}

/// The target names another document by identifier: it starts with the
/// internal-reference prefix "id:".
pub open spec fn is_internal(target: Seq<char>) -> bool {
    target.len() >= 3 && target[0] == 'i' && target[1] == 'd' && target[2] == ':'
}

/// The form in which a resolved title is embedded in a wiki link.
pub open spec fn embedded_title(title: Seq<char>, normalize: bool) -> Seq<char> {
    if normalize {
        wikify(title)
    } else {
        title
    }
}

/// The fixed text that stands in for a source block, which the target
/// dialect cannot express.
pub open spec fn source_block_placeholder() -> Seq<char> {
    "\n(subtext does not yet support code blocks, but this is where one would be)\n\n"@
}

/// What one text run emits: nothing when it carries the drawer marker,
/// its quoted form inside a quote block, itself otherwise.
pub open spec fn text_output(t: Seq<char>, inq: bool) -> Seq<char> {
    if has_id_marker(t) {
        Seq::empty()
    } else if inq {
        quoted_text(t)
    } else {
        t
    }
}

/// What one keyword line emits: a document title becomes a top-level
/// heading, every other keyword is ignored.
pub open spec fn keyword_output(key: Seq<char>, value: Seq<char>) -> Seq<char> {
    if key == "title"@ {
        "# "@ + trimmed(value) + "\n"@
    } else {
        Seq::empty()
    }
}

/// The warning one link contributes: its identifier, when it is internal
/// and the index cannot resolve it.
pub open spec fn link_warnings(target: Seq<char>, idx: Seq<(String, String)>) -> Seq<Seq<char>> {
    if is_internal(target) && lookup(idx, target.skip(3)) is None {
        seq![target.skip(3)]
    } else {
        Seq::empty()
    }
}

/// What one link emits, given the index and the normalization choice.
pub open spec fn link_output(
    target: Seq<char>,
    display: Option<String>,
    idx: Seq<(String, String)>,
    normalize: bool,
) -> Seq<char> {
    if is_internal(target) {
        match lookup(idx, target.skip(3)) {
            Some(title) => "[["@ + embedded_title(title, normalize) + "]]"@,
            None => "[[]]"@,
        }
    } else {
        match display {
            Some(d) => d@ + " <"@ + target + ">"@,
            None => "<"@ + target + ">"@,
        }
    }
}

/// What one node emits. `inq` and `inl` say whether an ancestor is a
/// quote block or a list; `has_prev` and `has_next` say whether the node
/// has a previous or a following sibling.
///
/// The three quote rules compose as follows: the quote block itself
/// prefixes the first line, the text transform prefixes continuation
/// lines within a text run, and the paragraph's leave rule prefixes the
/// blank separator line before a following sibling.
pub open spec fn render_node(
    n: Node,
    idx: Seq<(String, String)>,
    normalize: bool,
    inq: bool,
    inl: bool,
    has_prev: bool,
    has_next: bool,
) -> Seq<char>
    decreases n, 0int,
{
    match n {
        Node::Heading { level, title, children } => hashes(level as nat) + " "@ + title@ + "\n"@
            + render_children(children@, 0, idx, normalize, inq, inl) + "\n"@,
        Node::Section { children } => render_children(children@, 0, idx, normalize, inq, inl)
            + "\n"@,
        Node::Paragraph { children } => (if inq && has_prev {
            "> "@
        } else {
            Seq::empty()
        }) + render_children(children@, 0, idx, normalize, inq, inl) + (if inl {
            Seq::empty()
        } else if inq && has_next {
            "\n>\n"@
        } else {
            "\n"@
        }),
        Node::Text { content } => text_output(content@, inq),
        Node::Code { content } => "`"@ + content@ + "`"@,
        Node::Keyword { key, value } => keyword_output(key@, value@),
        Node::Link { target, display } => link_output(target@, display, idx, normalize),
        Node::List { children } => render_children(children@, 0, idx, normalize, inq, true),
        Node::ListItem { children } => "- "@ + render_children(
            children@,
            0,
            idx,
            normalize,
            inq,
            inl,
        ) + "\n"@,
        Node::QuoteBlock { children } => "> "@ + render_children(
            children@,
            0,
            idx,
            normalize,
            true,
            inl,
        ),
        Node::SourceBlock { .. } => source_block_placeholder(),
        Node::Container { children } => render_children(children@, 0, idx, normalize, inq, inl),
    }
}

/// What the nodes of `ns` from position `i` on emit, each knowing its
/// sibling position.
pub open spec fn render_children(
    ns: Seq<Node>,
    i: int,
    idx: Seq<(String, String)>,
    normalize: bool,
    inq: bool,
    inl: bool,
) -> Seq<char>
    decreases ns, ns.len() - i,
{
    if i < 0 || i >= ns.len() {
        Seq::empty()
    } else {
        render_node(ns[i], idx, normalize, inq, inl, i > 0, i + 1 < ns.len()) + render_children(
            ns,
            i + 1,
            idx,
            normalize,
            inq,
            inl,
        )
    }
}

/// The identifiers of the internal links under `n` that `idx` cannot
/// resolve, in traversal order.
pub open spec fn node_warnings(n: Node, idx: Seq<(String, String)>) -> Seq<Seq<char>>
    decreases n, 0int,
{
    match n {
        Node::Heading { children, .. } => children_warnings(children@, 0, idx),
        Node::Section { children } => children_warnings(children@, 0, idx),
        Node::Paragraph { children } => children_warnings(children@, 0, idx),
        Node::Link { target, .. } => link_warnings(target@, idx),
        Node::List { children } => children_warnings(children@, 0, idx),
        Node::ListItem { children } => children_warnings(children@, 0, idx),
        Node::QuoteBlock { children } => children_warnings(children@, 0, idx),
        Node::Container { children } => children_warnings(children@, 0, idx),
        _ => Seq::empty(),
    }
}

/// The unresolved internal link identifiers under the nodes of `ns` from
/// position `i` on.
pub open spec fn children_warnings(ns: Seq<Node>, i: int, idx: Seq<(String, String)>) -> Seq<
    Seq<char>,
>
    decreases ns, ns.len() - i,
{
    if i < 0 || i >= ns.len() {
        Seq::empty()
    } else {
        node_warnings(ns[i], idx) + children_warnings(ns, i + 1, idx)
    }
}

/// The full output of converting `doc` against `idx`.
pub open spec fn doc_output(doc: Seq<Node>, idx: Seq<(String, String)>, normalize: bool) -> Seq<
    char,
> {
    render_children(doc, 0, idx, normalize, false, false)
}

/// The unresolved internal link identifiers of converting `doc` against
/// `idx`, in traversal order.
pub open spec fn doc_warnings(doc: Seq<Node>, idx: Seq<(String, String)>) -> Seq<Seq<char>> {
    children_warnings(doc, 0, idx)
}

/// Law: a heading of level `level` renders as exactly `level` '#'
/// characters, then one space, then its title text, then a newline; one
/// more newline closes the heading after its rendered body.
pub proof fn lemma_heading_format(
    level: usize,
    title: String,
    children: Vec<Node>,
    idx: Seq<(String, String)>,
    normalize: bool,
    inq: bool,
    inl: bool,
    has_prev: bool,
    has_next: bool,
)
    ensures
        ({
            let out = render_node(
                Node::Heading { level, title, children },
                idx,
                normalize,
                inq,
                inl,
                has_prev,
                has_next,
            );
            let body = render_children(children@, 0, idx, normalize, inq, inl);
            &&& out == hashes(level as nat) + " "@ + title@ + "\n"@ + body + "\n"@
            &&& out.len() == level + 1 + title@.len() + 1 + body.len() + 1
            &&& (forall|i: int| 0 <= i < level ==> out[i] == '#')
            &&& out[level as int] == ' '
            &&& (forall|i: int| 0 <= i < title@.len() ==> out[level + 1 + i] == title@[i])
            &&& out[level + 1 + title@.len()] == '\n'
            &&& out[out.len() - 1] == '\n'
        }),
{
    reveal_strlit(" ");
    reveal_strlit("\n");
}

/// Law: a text run whose content contains the case-insensitive marker
/// ":id:" contributes no characters to the output and no warnings,
/// whatever its context.
pub proof fn lemma_id_text_suppressed(
    content: String,
    idx: Seq<(String, String)>,
    normalize: bool,
    inq: bool,
    inl: bool,
    has_prev: bool,
    has_next: bool,
)
    requires
        has_id_marker(content@),
    ensures
        render_node(Node::Text { content }, idx, normalize, inq, inl, has_prev, has_next)
            == Seq::<char>::empty(),
        node_warnings(Node::Text { content }, idx) == Seq::<Seq<char>>::empty(),
{
}

/// Law: conversion is deterministic. Output and warnings are functions of
/// the document, the index and the configuration alone, so re-running a
/// conversion on an unchanged document against an unchanged index yields
/// byte-identical output; [`render`]'s contract ties every run to these
/// functions.
pub proof fn lemma_render_deterministic(
    a: Rendered,
    b: Rendered,
    doc: Seq<Node>,
    idx: Seq<(String, String)>,
    normalize: bool,
)
    requires
        a.text@ == doc_output(doc, idx, normalize),
        a.warnings.deep_view() == doc_warnings(doc, idx),
        b.text@ == doc_output(doc, idx, normalize),
        b.warnings.deep_view() == doc_warnings(doc, idx),
    ensures
        a.text@ == b.text@,
        a.warnings.deep_view() == b.warnings.deep_view(),
{
}

fn is_space_char(c: char) -> (r: bool)
    ensures
        r == is_space(c),
{
    c == ' ' || c == '\t' || c == '\n' || c == '\r'
}

fn find_id_marker(s: &str) -> (r: bool)
    ensures
        r == has_id_marker(s@),
{
    let n = s.unicode_len();
    if n < 4 {
        proof {
            assert(forall|i: int| !marker_at(s@, i));
        }
        return false;
    }
    let mut i: usize = 0;
    while i <= n - 4
        invariant
            n == s@.len(),
            4 <= n,
            i <= n - 3,
            forall|j: int| 0 <= j < i ==> !marker_at(s@, j),
        decreases n - i,
    {
        let c0 = s.get_char(i);
        let c1 = s.get_char(i + 1);
        let c2 = s.get_char(i + 2);
        let c3 = s.get_char(i + 3);
        if c0 == ':' && (c1 == 'i' || c1 == 'I') && (c2 == 'd' || c2 == 'D') && c3 == ':' {
            proof {
                assert(marker_at(s@, i as int));
            }
            return true;
        }
        i += 1;
    }
    proof {
        assert(forall|j: int| marker_at(s@, j) ==> 0 <= j <= n - 4);
        assert(!has_id_marker(s@));
    }
    false
}

fn emit_hashes(level: usize, out: &mut String)
    ensures
        final(out)@ == old(out)@ + hashes(level as nat),
{
    let mut k: usize = 0;
    proof {
        assert(out@ =~= old(out)@ + hashes(0));
    }
    while k < level
        invariant
            k <= level,
            out@ == old(out)@ + hashes(k as nat),
        decreases level - k,
    {
        let ghost pre = out@;
        out.append("#");
        proof {
            reveal_strlit("#");
            assert(out@ =~= old(out)@ + hashes((k + 1) as nat));
        }
        k += 1;
    }
}

fn append_quoted(s: &str, out: &mut String)
    ensures
        final(out)@ == old(out)@ + quoted_text(s@),
{
    let n = s.unicode_len();
    let mut j: usize = 0;
    while j < n
        invariant
            j <= n == s@.len(),
            out@ + quoted_text_from(s@, j as int) == old(out)@ + quoted_text(s@),
        decreases n - j,
    {
        let ghost pre = out@;
        let c = s.get_char(j);
        if c == '\n' {
            out.append("\n> ");
        } else {
            push_char(out, c);
        }
        proof {
            assert(out@ + quoted_text_from(s@, j + 1) =~= pre + quoted_text_from(s@, j as int));
        }
        j += 1;
    }
    proof {
        assert(out@ =~= out@ + quoted_text_from(s@, n as int));
    }
}

proof fn lemma_trim_front_skip(t: Seq<char>, k: int)
    requires
        0 <= k <= t.len(),
        forall|j: int| 0 <= j < k ==> is_space(t[j]),
        k < t.len() ==> !is_space(t[k]),
    ensures
        trim_front(t) == t.skip(k),
    decreases k,
{
    if k == 0 {
        assert(t.skip(0) =~= t);
    } else {
        let u = t.drop_first();
        lemma_trim_front_skip(u, k - 1);
        assert(u.skip(k - 1) =~= t.skip(k));
    }
}

proof fn lemma_trim_back_take(t: Seq<char>, k: int)
    requires
        0 <= k <= t.len(),
        forall|j: int| k <= j < t.len() ==> is_space(t[j]),
        k > 0 ==> !is_space(t[k - 1]),
    ensures
        trim_back(t) == t.take(k),
    decreases t.len(),
{
    if k == t.len() {
        assert(t.take(k) =~= t);
    } else {
        assert(is_space(t[t.len() - 1]));
        lemma_trim_back_take(t.drop_last(), k);
        assert(t.drop_last().take(k) =~= t.take(k));
    }
}

fn trim_ws(s: &str) -> (r: &str)
    ensures
        r@ == trimmed(s@),
{
    let n = s.unicode_len();
    let mut a: usize = 0;
    let mut stopped = false;
    while a < n && !stopped
        invariant
            a <= n == s@.len(),
            forall|j: int| 0 <= j < a ==> is_space(s@[j]),
            stopped ==> a < n && !is_space(s@[a as int]),
        decreases n - a + (if stopped { 0int } else { 1int }),
    {
        if is_space_char(s.get_char(a)) {
            a += 1;
        } else {
            stopped = true;
        }
    }
    let mut b: usize = n;
    let mut stopped_back = false;
    while b > a && !stopped_back
        invariant
            a <= b <= n == s@.len(),
            forall|j: int| b <= j < n ==> is_space(s@[j]),
            stopped_back ==> b > a && !is_space(s@[b - 1]),
        decreases b + (if stopped_back { 0int } else { 1int }),
    {
        if is_space_char(s.get_char(b - 1)) {
            b -= 1;
        } else {
            stopped_back = true;
        }
    }
    let r = s.substring_char(a, b);
    proof {
        lemma_trim_front_skip(s@, a as int);
        let u = s@.skip(a as int);
        assert(forall|j: int| b - a <= j < u.len() ==> is_space(#[trigger] u[j]));
        if b > a {
            assert(!is_space(u[b - a - 1]));
        }
        lemma_trim_back_take(u, b - a);
        assert(r@ =~= u.take(b - a));
    }
    r
}

proof fn lemma_deep_view_push(v0: Vec<String>, v1: Vec<String>, s: String)
    requires
        v1@ == v0@.push(s),
    ensures
        v1.deep_view() == v0.deep_view().push(s@),
{
    assert forall|i: int| 0 <= i < v1.deep_view().len() implies v1.deep_view()[i]
        == v0.deep_view().push(s@)[i] by {
        if i < v0@.len() {
            assert(v1@[i] == v0@[i]);
        }
    }
    assert(v1.deep_view() =~= v0.deep_view().push(s@));
}

fn emit_text(content: &String, inq: bool, out: &mut String)
    ensures
        final(out)@ == old(out)@ + text_output(content@, inq),
{
    if find_id_marker(content.as_str()) {
        proof {
            assert(out@ =~= old(out)@ + text_output(content@, inq));
        }
    } else if inq {
        append_quoted(content.as_str(), out);
    } else {
        out.append(content.as_str());
    }
}

fn emit_keyword(key: &String, value: &String, out: &mut String)
    ensures
        final(out)@ == old(out)@ + keyword_output(key@, value@),
{
    let title_key = String::from_str("title");
    if *key == title_key {
        out.append("# ");
        out.append(trim_ws(value.as_str()));
        out.append("\n");
        proof {
            assert(out@ =~= old(out)@ + keyword_output(key@, value@));
        }
    } else {
        proof {
            assert(out@ =~= old(out)@ + keyword_output(key@, value@));
        }
    }
}

fn emit_link(
    target: &String,
    display: &Option<String>,
    idx: &LinkIndex,
    normalize: bool,
    out: &mut String,
    warns: &mut Vec<String>,
)
    ensures
        final(out)@ == old(out)@ + link_output(target@, *display, idx@, normalize),
        final(warns).deep_view() == old(warns).deep_view() + link_warnings(target@, idx@),
{
    let t = target.as_str();
    let tn = t.unicode_len();
    let internal = tn >= 3 && t.get_char(0) == 'i' && t.get_char(1) == 'd' && t.get_char(2) == ':';
    if internal {
        let id = t.substring_char(3, tn);
        proof {
            assert(id@ =~= target@.skip(3));
        }
        match idx.resolve(id) {
            Some(title) => {
                out.append("[[");
                if normalize {
                    append_wikified(title.as_str(), out);
                } else {
                    out.append(title.as_str());
                }
                out.append("]]");
            },
            None => {
                out.append("[[]]");
                let ghost w0 = *warns;
                warns.push(id.to_owned());
                proof {
                    lemma_deep_view_push(w0, *warns, warns@[warns@.len() - 1]);
                }
            },
        }
    } else {
        match display {
            Some(d) => {
                out.append(d.as_str());
                out.append(" <");
                out.append(t);
                out.append(">");
            },
            None => {
                out.append("<");
                out.append(t);
                out.append(">");
            },
        }
    }
    proof {
        assert(out@ =~= old(out)@ + link_output(target@, *display, idx@, normalize));
        assert(warns.deep_view() =~= old(warns).deep_view() + link_warnings(target@, idx@));
    }
}

fn emit_heading(
    level: usize,
    title: &String,
    children: &Vec<Node>,
    idx: &LinkIndex,
    normalize: bool,
    inq: bool,
    inl: bool,
    out: &mut String,
    warns: &mut Vec<String>,
)
    ensures
        final(out)@ == old(out)@ + (hashes(level as nat) + " "@ + title@ + "\n"@
            + render_children(children@, 0, idx@, normalize, inq, inl) + "\n"@),
        final(warns).deep_view() == old(warns).deep_view() + children_warnings(
            children@,
            0,
            idx@,
        ),
    decreases children@, 1int,
{
    emit_hashes(level, out);
    out.append(" ");
    out.append(title.as_str());
    out.append("\n");
    emit_children(children, idx, normalize, inq, inl, out, warns);
    out.append("\n");
    proof {
        assert(out@ =~= old(out)@ + (hashes(level as nat) + " "@ + title@ + "\n"@
            + render_children(children@, 0, idx@, normalize, inq, inl) + "\n"@));
    }
}

fn emit_paragraph(
    children: &Vec<Node>,
    idx: &LinkIndex,
    normalize: bool,
    inq: bool,
    inl: bool,
    has_prev: bool,
    has_next: bool,
    out: &mut String,
    warns: &mut Vec<String>,
)
    ensures
        final(out)@ == old(out)@ + ((if inq && has_prev {
            "> "@
        } else {
            Seq::empty()
        }) + render_children(children@, 0, idx@, normalize, inq, inl) + (if inl {
            Seq::empty()
        } else if inq && has_next {
            "\n>\n"@
        } else {
            "\n"@
        })),
        final(warns).deep_view() == old(warns).deep_view() + children_warnings(
            children@,
            0,
            idx@,
        ),
    decreases children@, 1int,
{
    if inq && has_prev {
        out.append("> ");
    }
    emit_children(children, idx, normalize, inq, inl, out, warns);
    if inl {
    } else if inq && has_next {
        out.append("\n>\n");
    } else {
        out.append("\n");
    }
    proof {
        assert(out@ =~= old(out)@ + ((if inq && has_prev {
            "> "@
        } else {
            Seq::empty()
        }) + render_children(children@, 0, idx@, normalize, inq, inl) + (if inl {
            Seq::empty()
        } else if inq && has_next {
            "\n>\n"@
        } else {
            "\n"@
        })));
    }
}

fn emit_framed(
    prefix: &str,
    suffix: &str,
    children: &Vec<Node>,
    idx: &LinkIndex,
    normalize: bool,
    inq: bool,
    inl: bool,
    out: &mut String,
    warns: &mut Vec<String>,
)
    ensures
        final(out)@ == old(out)@ + (prefix@ + render_children(
            children@,
            0,
            idx@,
            normalize,
            inq,
            inl,
        ) + suffix@),
        final(warns).deep_view() == old(warns).deep_view() + children_warnings(
            children@,
            0,
            idx@,
        ),
    decreases children@, 1int,
{
    out.append(prefix);
    emit_children(children, idx, normalize, inq, inl, out, warns);
    out.append(suffix);
    proof {
        assert(out@ =~= old(out)@ + (prefix@ + render_children(
            children@,
            0,
            idx@,
            normalize,
            inq,
            inl,
        ) + suffix@));
    }
}

#[verifier::rlimit(100)]
#[verifier::spinoff_prover]
fn emit_node(
    n: &Node,
    idx: &LinkIndex,
    normalize: bool,
    inq: bool,
    inl: bool,
    has_prev: bool,
    has_next: bool,
    out: &mut String,
    warns: &mut Vec<String>,
)
    ensures
        final(out)@ == old(out)@ + render_node(*n, idx@, normalize, inq, inl, has_prev, has_next),
        final(warns).deep_view() == old(warns).deep_view() + node_warnings(*n, idx@),
    decreases *n, 2int,
{
    let ghost target_out = old(out)@ + render_node(*n, idx@, normalize, inq, inl, has_prev, has_next);
    let ghost target_warns = old(warns).deep_view() + node_warnings(*n, idx@);
    match n {
        Node::Heading { level, title, children } => {
            emit_heading(*level, title, children, idx, normalize, inq, inl, out, warns);
            proof {
                assert(out@ == target_out);
                assert(warns.deep_view() == target_warns);
            }
        },
        Node::Section { children } => {
            emit_framed("", "\n", children, idx, normalize, inq, inl, out, warns);
            proof {
                reveal_strlit("");
                assert(out@ =~= target_out);
                assert(warns.deep_view() == target_warns);
            }
        },
        Node::Paragraph { children } => {
            emit_paragraph(children, idx, normalize, inq, inl, has_prev, has_next, out, warns);
            proof {
                assert(out@ == target_out);
                assert(warns.deep_view() == target_warns);
            }
        },
        Node::Text { content } => {
            emit_text(content, inq, out);
            proof {
                assert(out@ == target_out);
                assert(warns.deep_view() =~= target_warns);
            }
        },
        Node::Code { content } => {
            out.append("`");
            out.append(content.as_str());
            out.append("`");
            proof {
                assert(out@ =~= target_out);
                assert(warns.deep_view() =~= target_warns);
            }
        },
        Node::Keyword { key, value } => {
            emit_keyword(key, value, out);
            proof {
                assert(out@ == target_out);
                assert(warns.deep_view() =~= target_warns);
            }
        },
        Node::Link { target, display } => {
            emit_link(target, display, idx, normalize, out, warns);
            proof {
                assert(out@ == target_out);
                assert(warns.deep_view() == target_warns);
            }
        },
        Node::List { children } => {
            emit_framed("", "", children, idx, normalize, inq, true, out, warns);
            proof {
                reveal_strlit("");
                assert(out@ =~= target_out);
                assert(warns.deep_view() == target_warns);
            }
        },
        Node::ListItem { children } => {
            emit_framed("- ", "\n", children, idx, normalize, inq, inl, out, warns);
            proof {
                assert(out@ == target_out);
                assert(warns.deep_view() == target_warns);
            }
        },
        Node::QuoteBlock { children } => {
            emit_framed("> ", "", children, idx, normalize, true, inl, out, warns);
            proof {
                reveal_strlit("");
                assert(out@ =~= target_out);
                assert(warns.deep_view() == target_warns);
            }
        },
        Node::SourceBlock { .. } => {
            out.append("\n(subtext does not yet support code blocks, but this is where one would be)\n\n");
            proof {
                assert(out@ == target_out);
                assert(warns.deep_view() =~= target_warns);
            }
        },
        Node::Container { children } => {
            emit_framed("", "", children, idx, normalize, inq, inl, out, warns);
            proof {
                reveal_strlit("");
                assert(out@ =~= target_out);
                assert(warns.deep_view() == target_warns);
            }
        },
    }
}

fn emit_children(
    ns: &Vec<Node>,
    idx: &LinkIndex,
    normalize: bool,
    inq: bool,
    inl: bool,
    out: &mut String,
    warns: &mut Vec<String>,
)
    ensures
        final(out)@ == old(out)@ + render_children(ns@, 0, idx@, normalize, inq, inl),
        final(warns).deep_view() == old(warns).deep_view() + children_warnings(ns@, 0, idx@),
    decreases ns@, 0int,
{
    let n_len = ns.len();
    let mut i: usize = 0;
    while i < n_len
        invariant
            i <= n_len == ns@.len(),
            out@ + render_children(ns@, i as int, idx@, normalize, inq, inl) == old(out)@
                + render_children(ns@, 0, idx@, normalize, inq, inl),
            warns.deep_view() + children_warnings(ns@, i as int, idx@) == old(warns).deep_view()
                + children_warnings(ns@, 0, idx@),
        decreases n_len - i,
    {
        let ghost pre_out = out@;
        let ghost pre_warns = warns.deep_view();
        emit_node(&ns[i], idx, normalize, inq, inl, i > 0, i + 1 < n_len, out, warns);
        proof {
            assert(out@ + render_children(ns@, i + 1, idx@, normalize, inq, inl) =~= pre_out
                + render_children(ns@, i as int, idx@, normalize, inq, inl));
            assert(warns.deep_view() + children_warnings(ns@, i + 1, idx@) =~= pre_warns
                + children_warnings(ns@, i as int, idx@));
        }
        i += 1;
    }
    proof {
        assert(out@ =~= out@ + render_children(ns@, n_len as int, idx@, normalize, inq, inl));
        assert(warns.deep_view() =~= warns.deep_view() + children_warnings(
            ns@,
            n_len as int,
            idx@,
        ));
    }
}

/// Converts a whole document against the given link index.
///
/// The returned text is exactly [`doc_output`] of the document, and the
/// returned warnings are exactly the identifiers of the internal links
/// that the index could not resolve, in traversal order. Resolution
/// failure never aborts the walk: it costs one warning and an empty
/// wiki link in the text.
pub fn render(doc: &Vec<Node>, index: &LinkIndex, config: &RenderConfig) -> (r: Rendered)
    ensures
        r.text@ == doc_output(doc@, index@, config.normalize_link_titles),
        r.warnings.deep_view() == doc_warnings(doc@, index@),
{
    let mut out = String::new();
    let mut warns: Vec<String> = Vec::new();
    emit_children(doc, index, config.normalize_link_titles, false, false, &mut out, &mut warns);
    proof {
        assert(out@ =~= doc_output(doc@, index@, config.normalize_link_titles));
        assert(warns.deep_view() =~= doc_warnings(doc@, index@));
    }
    Rendered { text: out, warnings: warns }
}

/// The identifiers of all internal links in the document, in traversal
/// order. Against an empty index every internal link is unresolved, so
/// these are exactly the warnings of such a run; a caller uses them to
/// decide which identifiers to look up before rendering.
pub fn internal_link_ids(doc: &Vec<Node>) -> (ids: Vec<String>)
    ensures
        ids.deep_view() == doc_warnings(doc@, Seq::empty()),
{
    let empty_index = LinkIndex::new();
    let mut out = String::new();
    let mut ids: Vec<String> = Vec::new();
    emit_children(doc, &empty_index, false, false, false, &mut out, &mut ids);
    proof {
        assert(ids.deep_view() =~= doc_warnings(doc@, Seq::empty()));
    }
    ids
}

} // verus!

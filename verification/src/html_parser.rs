//! Recursive-descent parser for a subset of HTML.
//!
//! The grammar is specified by pure functions over `Seq<char>`
//! ([`spec_parse_html`] and its helpers), and every executable parsing
//! function is proved to return exactly what the specification says, for
//! every input.  A grammar violation aborts the whole parse with a
//! [`ParseError`]; there is no partial-tree recovery.

use vstd::prelude::*;

use crate::ParseError;
use crate::cursor::{CharClass, Cursor, run_len, spec_expect};
use crate::dom;
use crate::dom::{AttrMap, Node, NodeV, NodeTypeV, ElementDataV, node_view, nodes_view};

verus! {

/// Whether a closing tag (`</`) starts at `pos`.
pub open spec fn spec_starts_close(s: Seq<char>, pos: int) -> bool {
    pos + 2 <= s.len() && s[pos] == '<' && s[pos + 1] == '/'
}

/// What parsing a text node yields: the maximal run of characters up to
/// (not including) the next `<`, and the position just past it.  A text
/// node can be empty and never fails.
pub open spec fn spec_parse_text(s: Seq<char>, pos: int) -> (NodeV, int) {
    let end = pos + run_len(s, pos, CharClass::NotChar('<'));
    (
        NodeV {
            children: Seq::empty(),
            node_type: NodeTypeV::Text(s.subrange(pos, end)),
        },
        end,
    )
}

/// What parsing one quoted attribute value yields: the opening quote must
/// be `"` or `/` (the latter a deliberately preserved looseness of this
/// grammar), the value runs to the identical closing quote, and the
/// closing quote is consumed.
pub open spec fn spec_parse_attr_value(s: Seq<char>, pos: int) -> Result<
    (Seq<char>, int),
    ParseError,
> {
    if pos >= s.len() {
        Err(ParseError::UnexpectedEndOfInput)
    } else {
        let quote = s[pos];
        if quote != '"' && quote != '/' {
            Err(ParseError::UnexpectedCharacter)
        } else {
            let end = pos + 1 + run_len(s, pos + 1, CharClass::NotChar(quote));
            match spec_expect(s, end, quote) {
                Err(e) => Err(e),
                Ok(after) => Ok((s.subrange(pos + 1, end), after)),
            }
        }
    }
}

/// What parsing one `name="value"` pair yields.
pub open spec fn spec_parse_attr(s: Seq<char>, pos: int) -> Result<
    (Seq<char>, Seq<char>, int),
    ParseError,
> {
    let name_end = pos + run_len(s, pos, CharClass::TagName);
    match spec_expect(s, name_end, '=') {
        Err(e) => Err(e),
        Ok(after_eq) => match spec_parse_attr_value(s, after_eq) {
            Err(e) => Err(e),
            Ok((value, after)) => Ok((s.subrange(pos, name_end), value, after)),
        },
    }
}

/// What parsing a whitespace-separated attribute list yields, starting from
/// the attributes `m` already read: pairs are entered in order (so a later
/// duplicate name wins) until the `>` that ends the open tag, which is not
/// consumed.
pub open spec fn spec_parse_attributes(
    s: Seq<char>,
    pos: int,
    m: Map<Seq<char>, Seq<char>>,
) -> Result<(Map<Seq<char>, Seq<char>>, int), ParseError>
    decreases s.len() - pos,
{
    let p = pos + run_len(s, pos, CharClass::Whitespace);
    if p >= s.len() {
        Err(ParseError::UnexpectedEndOfInput)
    } else if s[p] == '>' {
        Ok((m, p))
    } else {
        match spec_parse_attr(s, p) {
            Err(e) => Err(e),
            Ok((name, value, q)) => {
                if p < q <= s.len() {
                    spec_parse_attributes(s, q, m.insert(name, value))
                } else {
                    // a successful pair always advances; this branch is
                    // never taken
                    Err(ParseError::UnexpectedEndOfInput)
                }
            },
        }
    }
}

/// What parsing a sequence of sibling nodes yields, appended to the nodes
/// `acc` already read: nodes follow one another, separated by whitespace,
/// until end-of-input or a closing tag, which is not consumed.
pub open spec fn spec_parse_nodes(s: Seq<char>, pos: int, acc: Seq<NodeV>) -> Result<
    (Seq<NodeV>, int),
    ParseError,
>
    decreases s.len() - pos, 2int,
{
    let p = pos + run_len(s, pos, CharClass::Whitespace);
    if p >= s.len() || spec_starts_close(s, p) {
        Ok((acc, p))
    } else {
        match spec_parse_node(s, p) {
            Err(e) => Err(e),
            Ok((nv, q)) => {
                if p < q <= s.len() {
                    spec_parse_nodes(s, q, acc.push(nv))
                } else {
                    // a node parsed off a non-empty rest always advances;
                    // this branch is never taken
                    Err(ParseError::UnexpectedEndOfInput)
                }
            },
        }
    }
}

/// What parsing a single node yields: an element if the next character is
/// `<`, otherwise a text node.
pub open spec fn spec_parse_node(s: Seq<char>, pos: int) -> Result<(NodeV, int), ParseError>
    decreases s.len() - pos, 1int,
{
    if pos < s.len() && s[pos] == '<' {
        spec_parse_element(s, pos)
    } else {
        Ok(spec_parse_text(s, pos))
    }
}

/// What parsing a single element yields: `<`, tag name, attributes, `>`,
/// child nodes, then `</`, the same tag name, `>`.  A closing tag name
/// that differs from the opening one is a [`ParseError::MismatchedTag`].
pub open spec fn spec_parse_element(s: Seq<char>, pos: int) -> Result<(NodeV, int), ParseError>
    decreases s.len() - pos, 0int,
{
    match spec_expect(s, pos, '<') {
        Err(e) => Err(e),
        Ok(p1) => {
            let name_end = p1 + run_len(s, p1, CharClass::TagName);
            let name = s.subrange(p1, name_end);
            match spec_parse_attributes(s, name_end, Map::empty()) {
                Err(e) => Err(e),
                Ok((attrs, pa)) => match spec_expect(s, pa, '>') {
                    Err(e) => Err(e),
                    Ok(q) => {
                        if q <= pos {
                            // an open tag always advances; never taken
                            Err(ParseError::UnexpectedEndOfInput)
                        } else {
                            match spec_parse_nodes(s, q, Seq::empty()) {
                                Err(e) => Err(e),
                                Ok((children, r)) => match spec_expect(s, r, '<') {
                                    Err(e) => Err(e),
                                    Ok(r1) => match spec_expect(s, r1, '/') {
                                        Err(e) => Err(e),
                                        Ok(r2) => {
                                            let cend = r2 + run_len(s, r2, CharClass::TagName);
                                            if s.subrange(r2, cend) != name {
                                                Err(ParseError::MismatchedTag)
                                            } else {
                                                match spec_expect(s, cend, '>') {
                                                    Err(e) => Err(e),
                                                    Ok(fin) => Ok((
                                                        NodeV {
                                                            children,
                                                            node_type: NodeTypeV::Element(
                                                                ElementDataV {
                                                                    tag_name: name,
                                                                    attributes: attrs,
                                                                },
                                                            ),
                                                        },
                                                        fin,
                                                    )),
                                                }
                                            }
                                        },
                                    },
                                },
                            }
                        }
                    },
                },
            }
        },
    }
}

/// What parsing a whole document yields: the top-level sibling nodes; a
/// single top-level node is the root itself, any other number is wrapped
/// in a synthetic `html` element.
pub open spec fn spec_parse_html(s: Seq<char>) -> Result<NodeV, ParseError> {
    match spec_parse_nodes(s, 0, Seq::empty()) {
        Err(e) => Err(e),
        Ok((ns, p)) => {
            if ns.len() == 1 {
                Ok(ns[0])
            } else {
                Ok(NodeV {
                    children: ns,
                    node_type: NodeTypeV::Element(
                        ElementDataV { tag_name: "html"@, attributes: Map::empty() },
                    ),
                })
            }
        },
    }
}

/// Parse a tag or attribute name: the maximal run of ASCII letters and
/// digits, case preserved.
pub fn parse_tag_name(cur: &mut Cursor) -> (r: String)
    requires
        old(cur).wf(),
    ensures
        final(cur).wf(),
        final(cur).input == old(cur).input,
        final(cur).position == old(cur).position + run_len(
            final(cur).input@,
            old(cur).position as int,
            CharClass::TagName,
        ),
        r@ == final(cur).input@.subrange(
            old(cur).position as int,
            final(cur).position as int,
        ),
{
    cur.consume_while(CharClass::TagName)
}

/// Parse a text node: everything up to the next `<`.
pub fn parse_text(cur: &mut Cursor) -> (n: Node)
    requires
        old(cur).wf(),
    ensures
        final(cur).wf(),
        final(cur).input == old(cur).input,
        old(cur).position <= final(cur).position,
        spec_parse_text(old(cur).input@, old(cur).position as int) == (
            node_view(n),
            final(cur).position as int,
        ),
        old(cur).position < old(cur).input@.len() && old(cur).input@[old(cur).position as int]
            != '<' ==> old(cur).position < final(cur).position,
{
    let data = cur.consume_while(CharClass::NotChar('<'));
    dom::text(data)
}

/// Parse one `name="value"` attribute pair.
pub fn parse_attrs(cur: &mut Cursor) -> (r: Result<(String, String), ParseError>)
    requires
        old(cur).wf(),
    ensures
        final(cur).wf(),
        final(cur).input == old(cur).input,
        old(cur).position <= final(cur).position,
        match r {
            Ok(nv) => spec_parse_attr(old(cur).input@, old(cur).position as int) == Ok::<
                _,
                ParseError,
            >((nv.0@, nv.1@, final(cur).position as int)) && old(cur).position < final(cur).position,
            Err(e) => spec_parse_attr(old(cur).input@, old(cur).position as int) == Err::<
                (Seq<char>, Seq<char>, int),
                ParseError,
            >(e),
        },
{
    let name = parse_tag_name(cur);
    match cur.expect('=') {
        Err(e) => Err(e),
        Ok(()) => match parse_attr_value(cur) {
            Err(e) => Err(e),
            Ok(value) => Ok((name, value)),
        },
    }
}

/// Parse a quoted attribute value; `"` or `/` opens it and the identical
/// character closes it.
pub fn parse_attr_value(cur: &mut Cursor) -> (r: Result<String, ParseError>)
    requires
        old(cur).wf(),
    ensures
        final(cur).wf(),
        final(cur).input == old(cur).input,
        old(cur).position <= final(cur).position,
        match r {
            Ok(v) => spec_parse_attr_value(old(cur).input@, old(cur).position as int) == Ok::<
                _,
                ParseError,
            >((v@, final(cur).position as int)),
            Err(e) => spec_parse_attr_value(old(cur).input@, old(cur).position as int) == Err::<
                (Seq<char>, int),
                ParseError,
            >(e),
        },
{
    if cur.eof() {
        return Err(ParseError::UnexpectedEndOfInput);
    }
    let quote = cur.consume_char();
    if quote != '"' && quote != '/' {
        return Err(ParseError::UnexpectedCharacter);
    }
    let value = cur.consume_while(CharClass::NotChar(quote));
    match cur.expect(quote) {
        Err(e) => Err(e),
        Ok(()) => Ok(value),
    }
}

/// Parse the attribute list of an open tag, stopping (without consuming)
/// at `>`.
pub fn parse_attributes(cur: &mut Cursor) -> (r: Result<AttrMap, ParseError>)
    requires
        old(cur).wf(),
    ensures
        final(cur).wf(),
        final(cur).input == old(cur).input,
        old(cur).position <= final(cur).position,
        match r {
            Ok(attrs) => spec_parse_attributes(
                old(cur).input@,
                old(cur).position as int,
                Map::empty(),
            ) == Ok::<_, ParseError>((attrs@, final(cur).position as int)),
            Err(e) => spec_parse_attributes(
                old(cur).input@,
                old(cur).position as int,
                Map::empty(),
            ) == Err::<(Map<Seq<char>, Seq<char>>, int), ParseError>(e),
        },
{
    let ghost s = cur.input@;
    let ghost i0 = cur.input;
    let ghost p0 = cur.position as int;
    let mut attributes = AttrMap::new();
    let mut err: Option<ParseError> = None;
    loop
        invariant_except_break
            err is None,
            spec_parse_attributes(s, p0, Map::empty()) == spec_parse_attributes(
                s,
                cur.position as int,
                attributes@,
            ),
        invariant
            cur.wf(),
            cur.input == i0,
            cur.input@ == s,
            p0 <= cur.position,
        ensures
            cur.wf(),
            cur.input == i0,
            p0 <= cur.position,
            match err {
                None => spec_parse_attributes(s, p0, Map::empty()) == Ok::<_, ParseError>((
                    attributes@,
                    cur.position as int,
                )),
                Some(e) => spec_parse_attributes(s, p0, Map::empty()) == Err::<
                    (Map<Seq<char>, Seq<char>>, int),
                    ParseError,
                >(e),
            },
        decreases s.len() - cur.position,
    {
        let ghost ph = cur.position as int;
        let ghost ma = attributes@;
        cur.consume_whitespace();
        if cur.eof() {
            proof {
                assert(spec_parse_attributes(s, ph, ma) == Err::<
                    (Map<Seq<char>, Seq<char>>, int),
                    ParseError,
                >(ParseError::UnexpectedEndOfInput));
            }
            err = Some(ParseError::UnexpectedEndOfInput);
            break;
        }
        if cur.next_char() == '>' {
            proof {
                assert(spec_parse_attributes(s, ph, ma) == Ok::<_, ParseError>((
                    ma,
                    cur.position as int,
                )));
            }
            break;
        }
        match parse_attrs(cur) {
            Err(e) => {
                proof {
                    assert(spec_parse_attributes(s, ph, ma) == Err::<
                        (Map<Seq<char>, Seq<char>>, int),
                        ParseError,
                    >(e));
                }
                err = Some(e);
                break;
            },
            Ok((name, value)) => {
                attributes.insert(name, value);
                proof {
                    assert(spec_parse_attributes(s, ph, ma) == spec_parse_attributes(
                        s,
                        cur.position as int,
                        attributes@,
                    ));
                }
            },
        }
    }
    match err {
        Some(e) => Err(e),
        None => Ok(attributes),
    }
}

/// Parse a sequence of sibling nodes, stopping (without consuming) at
/// end-of-input or at a closing tag.
pub fn parse_nodes(cur: &mut Cursor) -> (r: Result<Vec<Node>, ParseError>)
    requires
        old(cur).wf(),
    ensures
        final(cur).wf(),
        final(cur).input == old(cur).input,
        old(cur).position <= final(cur).position,
        match r {
            Ok(ns) => spec_parse_nodes(
                old(cur).input@,
                old(cur).position as int,
                Seq::empty(),
            ) == Ok::<_, ParseError>((nodes_view(ns@), final(cur).position as int)),
            Err(e) => spec_parse_nodes(old(cur).input@, old(cur).position as int, Seq::empty())
                == Err::<(Seq<NodeV>, int), ParseError>(e),
        },
    decreases old(cur).input@.len() - old(cur).position, 2int,
{
    let ghost s = cur.input@;
    let ghost i0 = cur.input;
    let ghost p0 = cur.position as int;
    let mut nodes: Vec<Node> = Vec::new();
    let mut err: Option<ParseError> = None;
    loop
        invariant_except_break
            err is None,
            spec_parse_nodes(s, p0, Seq::empty()) == spec_parse_nodes(
                s,
                cur.position as int,
                nodes_view(nodes@),
            ),
        invariant
            cur.wf(),
            cur.input == i0,
            cur.input@ == s,
            p0 <= cur.position,
            old(cur).input@ == s,
            old(cur).position == p0,
        ensures
            cur.wf(),
            cur.input == i0,
            p0 <= cur.position,
            match err {
                None => spec_parse_nodes(s, p0, Seq::empty()) == Ok::<_, ParseError>((
                    nodes_view(nodes@),
                    cur.position as int,
                )),
                Some(e) => spec_parse_nodes(s, p0, Seq::empty()) == Err::<
                    (Seq<NodeV>, int),
                    ParseError,
                >(e),
            },
        decreases s.len() - cur.position,
    {
        let ghost ph = cur.position as int;
        let ghost nv = nodes_view(nodes@);
        cur.consume_whitespace();
        if cur.eof() {
            proof {
                assert(spec_parse_nodes(s, ph, nv) == Ok::<_, ParseError>((
                    nv,
                    cur.position as int,
                )));
            }
            break;
        }
        if cur.starts_with("</") {
            proof {
                reveal_strlit("</");
                assert(s.subrange(cur.position as int, cur.position + 2)[0] == s[cur.position
                    as int]);
                assert(s.subrange(cur.position as int, cur.position + 2)[1] == s[cur.position
                    + 1]);
                assert(spec_starts_close(s, cur.position as int));
                assert(spec_parse_nodes(s, ph, nv) == Ok::<_, ParseError>((
                    nv,
                    cur.position as int,
                )));
            }
            break;
        }
        proof {
            reveal_strlit("</");
            if spec_starts_close(s, cur.position as int) {
                assert(s.subrange(cur.position as int, cur.position + 2) =~= "</"@);
                assert(false);
            }
        }
        match parse_node(cur) {
            Err(e) => {
                proof {
                    assert(spec_parse_nodes(s, ph, nv) == Err::<
                        (Seq<NodeV>, int),
                        ParseError,
                    >(e));
                }
                err = Some(e);
                break;
            },
            Ok(n) => {
                proof {
                    dom::lemma_nodes_view_push(nodes@, n);
                }
                nodes.push(n);
                proof {
                    assert(spec_parse_nodes(s, ph, nv) == spec_parse_nodes(
                        s,
                        cur.position as int,
                        nodes_view(nodes@),
                    ));
                }
            },
        }
    }
    match err {
        Some(e) => Err(e),
        None => Ok(nodes),
    }
}

/// Parse a single node: an element after `<`, a text node otherwise.
pub fn parse_node(cur: &mut Cursor) -> (r: Result<Node, ParseError>)
    requires
        old(cur).wf(),
        old(cur).position < old(cur).input@.len(),
    ensures
        final(cur).wf(),
        final(cur).input == old(cur).input,
        old(cur).position <= final(cur).position,
        match r {
            Ok(n) => spec_parse_node(old(cur).input@, old(cur).position as int) == Ok::<
                _,
                ParseError,
            >((node_view(n), final(cur).position as int)) && old(cur).position < final(cur).position,
            Err(e) => spec_parse_node(old(cur).input@, old(cur).position as int) == Err::<
                (NodeV, int),
                ParseError,
            >(e),
        },
    decreases old(cur).input@.len() - old(cur).position, 1int,
{
    if cur.next_char() == '<' {
        parse_element(cur)
    } else {
        let n = parse_text(cur);
        Ok(n)
    }
}

/// Parse a single element, including its open tag, contents and closing
/// tag.
pub fn parse_element(cur: &mut Cursor) -> (r: Result<Node, ParseError>)
    requires
        old(cur).wf(),
    ensures
        final(cur).wf(),
        final(cur).input == old(cur).input,
        old(cur).position <= final(cur).position,
        match r {
            Ok(n) => spec_parse_element(old(cur).input@, old(cur).position as int) == Ok::<
                _,
                ParseError,
            >((node_view(n), final(cur).position as int)) && old(cur).position < final(cur).position,
            Err(e) => spec_parse_element(old(cur).input@, old(cur).position as int) == Err::<
                (NodeV, int),
                ParseError,
            >(e),
        },
    decreases old(cur).input@.len() - old(cur).position, 0int,
{
    // Opening tag.
    if let Err(e) = cur.expect('<') {
        return Err(e);
    }
    let tag_name = parse_tag_name(cur);
    let attrs = match parse_attributes(cur) {
        Err(e) => return Err(e),
        Ok(a) => a,
    };
    if let Err(e) = cur.expect('>') {
        return Err(e);
    }
    // Contents.
    let children = match parse_nodes(cur) {
        Err(e) => return Err(e),
        Ok(ns) => ns,
    };
    // Closing tag.
    if let Err(e) = cur.expect('<') {
        return Err(e);
    }
    if let Err(e) = cur.expect('/') {
        return Err(e);
    }
    let close_name = parse_tag_name(cur);
    if !close_name.eq(&tag_name) {
        return Err(ParseError::MismatchedTag);
    }
    if let Err(e) = cur.expect('>') {
        return Err(e);
    }
    Ok(dom::elem(tag_name, attrs, children))
}

/// Parse an HTML document and return the root node.  If the document holds
/// exactly one top-level node that node is the root; otherwise a synthetic
/// `html` element wraps all top-level nodes as its children.
pub fn parse(source: String) -> (r: Result<Node, ParseError>)
    ensures
        match r {
            Ok(n) => spec_parse_html(source@) == Ok::<_, ParseError>(node_view(n)),
            Err(e) => spec_parse_html(source@) == Err::<NodeV, ParseError>(e),
        },
{
    let mut cur = Cursor::new(source);
    let mut nodes = match parse_nodes(&mut cur) {
        Err(e) => return Err(e),
        Ok(ns) => ns,
    };
    if nodes.len() == 1 {
        proof {
            dom::lemma_nodes_view_props(nodes@);
        }
        let n = nodes.swap_remove(0);
        Ok(n)
    } else {
        proof {
            dom::lemma_nodes_view_props(nodes@);
        }
        Ok(dom::elem("html".to_owned(), AttrMap::new(), nodes))
    }
}


/// A document whose top level holds exactly one node has that node itself
/// as the root: nothing is added around it.
pub proof fn lemma_single_root(s: Seq<char>, ns: Seq<NodeV>, p: int)
    requires
        spec_parse_nodes(s, 0, Seq::empty()) == Ok::<(Seq<NodeV>, int), ParseError>((ns, p)),
        ns.len() == 1,
    ensures
        spec_parse_html(s) == Ok::<NodeV, ParseError>(ns[0]),
{
}

/// A successfully parsed element is named by exactly the text of its
/// opening tag: the run of letters and digits just after the `<`.  With
/// the closing-tag check of the grammar, nothing is ever substituted for
/// it.
pub proof fn lemma_element_tag_name(s: Seq<char>, pos: int, nv: NodeV, p: int)
    requires
        spec_parse_element(s, pos) == Ok::<(NodeV, int), ParseError>((nv, p)),
    ensures
        nv.node_type is Element,
        nv.node_type->Element_0.tag_name == s.subrange(
            pos + 1,
            pos + 1 + run_len(s, pos + 1, CharClass::TagName),
        ),
{
}

/// A document with any other number of top-level nodes gets a synthetic
/// root element named `html` whose children are exactly those nodes, in
/// source order, with no attributes.
pub proof fn lemma_synthetic_root(s: Seq<char>, ns: Seq<NodeV>, p: int)
    requires
        spec_parse_nodes(s, 0, Seq::empty()) == Ok::<(Seq<NodeV>, int), ParseError>((ns, p)),
        ns.len() != 1,
    ensures
        spec_parse_html(s) == Ok::<NodeV, ParseError>(NodeV {
            children: ns,
            node_type: NodeTypeV::Element(
                ElementDataV { tag_name: "html"@, attributes: Map::empty() },
            ),
        }),
{
}

} // verus!

//! HTML elements: the IDL attributes that reflect content attributes
//! (title, lang, dir, hidden, an input's value), the inline style
//! declarations of the `style` attribute, and the resolved style values the
//! computed-style getter reports.
use vstd::prelude::*;
use crate::dom::{
    get_attribute_spec, live, node, normalized_name, opt_seq,
    remove_attribute_spec, set_attr_by_name_spec, tree_wf, DomTree, NodeModel,
};
use crate::lookup::{first_match, lemma_first_match_is, lemma_first_match_none};
use crate::media::{get_reflected_bool, get_reflected_string, reflected_string, set_bool_attr_spec, set_reflected_bool};
use crate::style_map::StyleProperties;
use crate::text::{
    ascii_lower_seq, chars_of, split_at_char, split_chars, str_eq, string_from_chars, subvec,
    to_ascii_lowercase, trim_whitespace, trimmed,
};

verus! {

/// The display an element has by default, by its tag name.
pub open spec fn default_display_spec(tag: Seq<char>) -> &'static str {
    if tag == "BODY"@ || tag == "DIV"@ || tag == "FORM"@ || tag == "H1"@ || tag == "H2"@ || tag
        == "H3"@ || tag == "H4"@ || tag == "H5"@ || tag == "H6"@ || tag == "HEADER"@ || tag
        == "HTML"@ || tag == "IFRAME"@ || tag == "LI"@ || tag == "MAIN"@ || tag == "NAV"@ || tag
        == "OL"@ || tag == "P"@ || tag == "SECTION"@ || tag == "TABLE"@ || tag == "UL"@ {
        "block"
    } else if tag == "BUTTON"@ {
        "inline-block"
    } else {
        "inline"
    }
}

/// The default display of each tag: block for BODY, DIV, FORM, H1 to H6,
/// HEADER, HTML, IFRAME, LI, MAIN, NAV, OL, P, SECTION, TABLE and UL;
/// inline-block for BUTTON; inline for others, such as SPAN, A, IMG, INPUT
/// and LABEL. Every tag gets one of the three.
pub proof fn law_default_display_of_tags(tag: Seq<char>)
    ensures
        default_display_spec("BODY"@)@ == "block"@,
        default_display_spec("DIV"@)@ == "block"@,
        default_display_spec("FORM"@)@ == "block"@,
        default_display_spec("H1"@)@ == "block"@,
        default_display_spec("H2"@)@ == "block"@,
        default_display_spec("H3"@)@ == "block"@,
        default_display_spec("H4"@)@ == "block"@,
        default_display_spec("H5"@)@ == "block"@,
        default_display_spec("H6"@)@ == "block"@,
        default_display_spec("HEADER"@)@ == "block"@,
        default_display_spec("HTML"@)@ == "block"@,
        default_display_spec("IFRAME"@)@ == "block"@,
        default_display_spec("LI"@)@ == "block"@,
        default_display_spec("MAIN"@)@ == "block"@,
        default_display_spec("NAV"@)@ == "block"@,
        default_display_spec("OL"@)@ == "block"@,
        default_display_spec("P"@)@ == "block"@,
        default_display_spec("SECTION"@)@ == "block"@,
        default_display_spec("TABLE"@)@ == "block"@,
        default_display_spec("UL"@)@ == "block"@,
        default_display_spec("BUTTON"@)@ == "inline-block"@,
        default_display_spec("SPAN"@)@ == "inline"@,
        default_display_spec("A"@)@ == "inline"@,
        default_display_spec("IMG"@)@ == "inline"@,
        default_display_spec("INPUT"@)@ == "inline"@,
        default_display_spec("LABEL"@)@ == "inline"@,
        default_display_spec(tag)@ == "block"@ || default_display_spec(tag)@ == "inline-block"@
            || default_display_spec(tag)@ == "inline"@,
{
    reveal_strlit("BODY");
    reveal_strlit("DIV");
    reveal_strlit("FORM");
    reveal_strlit("H1");
    reveal_strlit("H2");
    reveal_strlit("H3");
    reveal_strlit("H4");
    reveal_strlit("H5");
    reveal_strlit("H6");
    reveal_strlit("HEADER");
    reveal_strlit("HTML");
    reveal_strlit("IFRAME");
    reveal_strlit("LI");
    reveal_strlit("MAIN");
    reveal_strlit("NAV");
    reveal_strlit("OL");
    reveal_strlit("P");
    reveal_strlit("SECTION");
    reveal_strlit("TABLE");
    reveal_strlit("UL");
    reveal_strlit("BUTTON");
    reveal_strlit("SPAN");
    reveal_strlit("A");
    reveal_strlit("IMG");
    reveal_strlit("INPUT");
    reveal_strlit("LABEL");
    reveal_strlit("block");
    reveal_strlit("inline");
    reveal_strlit("inline-block");
    assert("BODY"@.len() == 4);
    assert("DIV"@.len() == 3);
    assert("FORM"@.len() == 4);
    assert("H1"@.len() == 2);
    assert("H2"@.len() == 2);
    assert("H3"@.len() == 2);
    assert("H4"@.len() == 2);
    assert("H5"@.len() == 2);
    assert("H6"@.len() == 2);
    assert("HEADER"@.len() == 6);
    assert("HTML"@.len() == 4);
    assert("IFRAME"@.len() == 6);
    assert("LI"@.len() == 2);
    assert("MAIN"@.len() == 4);
    assert("NAV"@.len() == 3);
    assert("OL"@.len() == 2);
    assert("P"@.len() == 1);
    assert("SECTION"@.len() == 7);
    assert("TABLE"@.len() == 5);
    assert("UL"@.len() == 2);
    assert("BUTTON"@.len() == 6);
    assert("SPAN"@.len() == 4);
    assert("A"@.len() == 1);
    assert("IMG"@.len() == 3);
    assert("INPUT"@.len() == 5);
    assert("LABEL"@.len() == 5);
    assert("BUTTON"@[0] != "HEADER"@[0]);
    assert("BUTTON"@[0] != "IFRAME"@[0]);
    assert("SPAN"@[0] != "BODY"@[0]);
    assert("SPAN"@[0] != "FORM"@[0]);
    assert("SPAN"@[0] != "HTML"@[0]);
    assert("SPAN"@[0] != "MAIN"@[0]);
    assert("A"@[0] != "P"@[0]);
    assert("IMG"@[0] != "DIV"@[0]);
    assert("IMG"@[0] != "NAV"@[0]);
    assert("INPUT"@[0] != "TABLE"@[0]);
    assert("LABEL"@[0] != "TABLE"@[0]);
}

/// An element that is not hidden and declares no display shows its tag's
/// default display: a paragraph is a block, a button an inline block, a
/// span inline.
pub proof fn law_resolved_display_defaults(inline: Map<Seq<char>, Seq<char>>)
    requires
        !inline.dom().contains("display"@),
    ensures
        resolved_display(inline, false, "P"@) == "block"@,
        resolved_display(inline, false, "DIV"@) == "block"@,
        resolved_display(inline, false, "BUTTON"@) == "inline-block"@,
        resolved_display(inline, false, "SPAN"@) == "inline"@,
        resolved_display(inline, true, "P"@) == "none"@,
{
    law_default_display_of_tags("P"@);
}

/// The display an element has by default: block for the block-level tags
/// listed, inline-block for a button, inline otherwise.
pub fn default_display_for_tag_name(tag_name: &str) -> (d: &'static str)
    ensures
        d == default_display_spec(tag_name@),
{
    if str_eq(tag_name, "BODY") || str_eq(tag_name, "DIV") || str_eq(tag_name, "FORM") || str_eq(
        tag_name,
        "H1",
    ) || str_eq(tag_name, "H2") || str_eq(tag_name, "H3") || str_eq(tag_name, "H4") || str_eq(
        tag_name,
        "H5",
    ) || str_eq(tag_name, "H6") || str_eq(tag_name, "HEADER") || str_eq(tag_name, "HTML")
        || str_eq(tag_name, "IFRAME") || str_eq(tag_name, "LI") || str_eq(tag_name, "MAIN")
        || str_eq(tag_name, "NAV") || str_eq(tag_name, "OL") || str_eq(tag_name, "P") || str_eq(
        tag_name,
        "SECTION",
    ) || str_eq(tag_name, "TABLE") || str_eq(tag_name, "UL") {
        "block"
    } else if str_eq(tag_name, "BUTTON") {
        "inline-block"
    } else {
        "inline"
    }
}

/// An HTML element, by its node.
pub struct HTMLElement {
    pub node_id: usize,
}

/// What setting a string-reflecting attribute does to the tree.
pub open spec fn set_string_attr_spec(
    t: Seq<Option<NodeModel>>,
    id: int,
    name: Seq<char>,
    value: Seq<char>,
) -> Seq<Option<NodeModel>> {
    set_attr_by_name_spec(t, id, normalized_name(t, id, name), value)
}

impl HTMLElement {
    pub fn new(node_id: usize) -> (e: Self)
        ensures
            e.node_id == node_id,
    {
        HTMLElement { node_id }
    }

    /// title: the `title` content attribute, or empty.
    pub fn title(&self, tree: &DomTree) -> (s: String)
        ensures
            s@ == reflected_string(tree@, self.node_id as int, "title"@),
    {
        proof {
            reveal_strlit("title");
        }
        get_reflected_string(tree, self.node_id, "title")
    }

    /// Setting title.
    pub fn set_title(&self, tree: &mut DomTree, title: &str)
        ensures
            tree_wf(final(tree)@),
            final(tree)@ == set_string_attr_spec(old(tree)@, self.node_id as int, "title"@, title@),
    {
        proof {
            use_type_invariant(&*tree);
        }
        proof {
            reveal_strlit("title");
        }
        tree.set_attribute(self.node_id, "title", title)
    }

    /// lang: the `lang` content attribute, or empty.
    pub fn lang(&self, tree: &DomTree) -> (s: String)
        ensures
            s@ == reflected_string(tree@, self.node_id as int, "lang"@),
    {
        proof {
            reveal_strlit("lang");
        }
        get_reflected_string(tree, self.node_id, "lang")
    }

    /// Setting lang.
    pub fn set_lang(&self, tree: &mut DomTree, lang: &str)
        ensures
            tree_wf(final(tree)@),
            final(tree)@ == set_string_attr_spec(old(tree)@, self.node_id as int, "lang"@, lang@),
    {
        proof {
            use_type_invariant(&*tree);
        }
        proof {
            reveal_strlit("lang");
        }
        tree.set_attribute(self.node_id, "lang", lang)
    }

    /// dir: the `dir` content attribute, or empty.
    pub fn dir(&self, tree: &DomTree) -> (s: String)
        ensures
            s@ == reflected_string(tree@, self.node_id as int, "dir"@),
    {
        proof {
            reveal_strlit("dir");
        }
        get_reflected_string(tree, self.node_id, "dir")
    }

    /// Setting dir.
    pub fn set_dir(&self, tree: &mut DomTree, dir: &str)
        ensures
            tree_wf(final(tree)@),
            final(tree)@ == set_string_attr_spec(old(tree)@, self.node_id as int, "dir"@, dir@),
    {
        proof {
            use_type_invariant(&*tree);
        }
        proof {
            reveal_strlit("dir");
        }
        tree.set_attribute(self.node_id, "dir", dir)
    }

    /// hidden: whether the `hidden` content attribute is present.
    pub fn hidden(&self, tree: &DomTree) -> (b: bool)
        ensures
            b == (get_attribute_spec(tree@, self.node_id as int, "hidden"@) is Some),
    {
        proof {
            reveal_strlit("hidden");
        }
        get_reflected_bool(tree, self.node_id, "hidden")
    }

    /// Setting hidden: present when true, removed when false.
    pub fn set_hidden(&self, tree: &mut DomTree, hidden: bool)
        ensures
            tree_wf(final(tree)@),
            final(tree)@ == set_bool_attr_spec(old(tree)@, self.node_id as int, "hidden"@, hidden),
    {
        proof {
            use_type_invariant(&*tree);
        }
        proof {
            reveal_strlit("hidden");
        }
        set_reflected_bool(tree, self.node_id, "hidden", hidden)
    }
}

pub open spec fn is_colon() -> spec_fn(char) -> bool {
    |c: char| c == ':'
}

/// The name/value pair a declaration stands for: the trimmed declaration
/// split at its first colon, the name trimmed and ASCII-lowercased, the
/// value trimmed; nothing for an empty declaration, one without a colon, or
/// one with an empty name.
pub open spec fn declaration_entry(piece: Seq<char>) -> Option<(Seq<char>, Seq<char>)> {
    let d = trimmed(piece);
    let i = first_match(d, is_colon());
    if d.len() == 0 || i < 0 {
        None
    } else {
        let name = ascii_lower_seq(trimmed(d.take(i)));
        if name.len() == 0 {
            None
        } else {
            Some((name, trimmed(d.skip(i + 1))))
        }
    }
}

/// The declarations in order, a later one replacing an earlier one of the
/// same name.
pub open spec fn declarations_map(pieces: Seq<Seq<char>>) -> Map<Seq<char>, Seq<char>>
    decreases pieces.len(),
{
    if pieces.len() == 0 {
        Map::empty()
    } else {
        let m = declarations_map(pieces.drop_last());
        match declaration_entry(pieces.last()) {
            Some((n, v)) => m.insert(n, v),
            None => m,
        }
    }
}

/// The inline style declarations of an element's `style` attribute.
pub open spec fn inline_style_spec(style: Option<Seq<char>>) -> Map<Seq<char>, Seq<char>> {
    match style {
        None => Map::empty(),
        Some(s) => declarations_map(split_at_char(s, ';')),
    }
}

/// The index of the first colon, if any.
fn find_colon(d: &Vec<char>) -> (r: Option<usize>)
    ensures
        match r {
            Some(i) => i < d@.len() && first_match(d@, is_colon()) == i,
            None => first_match(d@, is_colon()) == -1,
        },
{
    let mut i: usize = 0;
    while i < d.len()
        invariant
            i <= d@.len(),
            forall|k: int| 0 <= k < i ==> !(#[trigger] is_colon()(d@[k])),
        decreases d@.len() - i,
    {
        if d[i] == ':' {
            proof {
                lemma_first_match_is(d@, is_colon(), i as int);
            }
            return Some(i);
        }
        i = i + 1;
    }
    proof {
        lemma_first_match_none(d@, is_colon());
    }
    None
}

/// Adds the declaration of a piece of the style attribute to the map.
fn add_declaration(props: &mut StyleProperties, piece: &Vec<char>)
    requires
        old(props).wf(),
    ensures
        final(props).wf(),
        final(props)@ == match declaration_entry(piece@) {
            Some((n, v)) => old(props)@.insert(n, v),
            None => old(props)@,
        },
{
    let d = trim_whitespace(piece.as_slice());
    if d.len() == 0 {
        return;
    }
    let i = match find_colon(&d) {
        Some(i) => i,
        None => {
            return;
        },
    };
    let raw_name = subvec(&d, 0, i);
    let name_trimmed = trim_whitespace(raw_name.as_slice());
    let name = to_ascii_lowercase(name_trimmed.as_slice());
    if name.len() == 0 {
        assert(ascii_lower_seq(trimmed(d@.take(i as int))).len() == 0);
        return;
    }
    let raw_value = subvec(&d, i + 1, d.len());
    let value = trim_whitespace(raw_value.as_slice());
    proof {
        assert(raw_name@ =~= d@.take(i as int));
        assert(raw_value@ =~= d@.skip(i + 1));
    }
    let n = string_from_chars(name.as_slice());
    let v = string_from_chars(value.as_slice());
    props.insert(n.as_str(), v.as_str());
}

/// The declarations of a style attribute value (see
/// [`inline_style_spec`]).
pub fn parse_inline_style(style: &str) -> (props: StyleProperties)
    ensures
        props.wf(),
        props@ == inline_style_spec(Some(style@)),
{
    let s = chars_of(style);
    let pieces = split_chars(&s, ';');
    let ghost all = split_at_char(style@, ';');
    let mut props = StyleProperties::new();
    let mut k: usize = 0;
    while k < pieces.len()
        invariant
            pieces@.len() == all.len(),
            forall|j: int| 0 <= j < pieces@.len() ==> (#[trigger] pieces@[j])@ == all[j],
            k <= pieces@.len(),
            props.wf(),
            props@ == declarations_map(all.take(k as int)),
        decreases pieces@.len() - k,
    {
        assert(all.take(k + 1).drop_last() =~= all.take(k as int));
        add_declaration(&mut props, &pieces[k]);
        k = k + 1;
    }
    assert(all.take(all.len() as int) =~= all);
    props
}

/// The inline style declarations of an element: those of its `style`
/// attribute, or none.
pub fn inline_style_properties_for_element(tree: &DomTree, id: usize) -> (props: StyleProperties)
    ensures
        props.wf(),
        props@ == inline_style_spec(get_attribute_spec(tree@, id as int, "style"@)),
{
    proof {
        reveal_strlit("style");
    }
    match tree.get_attribute(id, "style") {
        Some(style) => parse_inline_style(style.as_str()),
        None => StyleProperties::new(),
    }
}

/// The border and padding widths of an element's box, each already written
/// as a CSS pixel length.
pub struct BoxMetricsText {
    pub border_top: String,
    pub border_right: String,
    pub border_bottom: String,
    pub border_left: String,
    pub padding_top: String,
    pub padding_right: String,
    pub padding_bottom: String,
    pub padding_left: String,
}

/// A name set to a value unless it has one already.
pub open spec fn or_insert(m: Map<Seq<char>, Seq<char>>, k: Seq<char>, v: Seq<char>) -> Map<
    Seq<char>,
    Seq<char>,
> {
    if m.dom().contains(k) {
        m
    } else {
        m.insert(k, v)
    }
}

/// The display of an element: none where it is hidden, otherwise its
/// declared display, otherwise the default for its tag.
pub open spec fn resolved_display(
    inline: Map<Seq<char>, Seq<char>>,
    hidden: bool,
    tag: Seq<char>,
) -> Seq<char> {
    if hidden {
        "none"@
    } else if inline.dom().contains("display"@) {
        inline["display"@]
    } else {
        default_display_spec(tag)@
    }
}

/// The defaults of the properties the box does not decide: each is set
/// unless declared; overflow-x and overflow-y default to overflow.
pub open spec fn style_defaults(p0: Map<Seq<char>, Seq<char>>) -> Map<Seq<char>, Seq<char>> {
    let p1 = or_insert(p0, "visibility"@, "visible"@);
    let p2 = or_insert(p1, "opacity"@, "1"@);
    let p3 = or_insert(p2, "transform"@, "none"@);
    let p4 = or_insert(p3, "pointer-events"@, "auto"@);
    let p5 = or_insert(p4, "position"@, "static"@);
    let p6 = or_insert(p5, "white-space"@, "normal"@);
    let p7 = or_insert(p6, "cursor"@, "auto"@);
    let p8 = or_insert(p7, "content"@, "none"@);
    let p9 = or_insert(p8, "overflow"@, "visible"@);
    let overflow = p9["overflow"@];
    let p10 = or_insert(p9, "overflow-x"@, overflow);
    or_insert(p10, "overflow-y"@, overflow)
}

/// The box's border and padding widths and zero margins, each set unless
/// declared.
pub open spec fn box_defaults(
    p: Map<Seq<char>, Seq<char>>,
    m: (Seq<char>, Seq<char>, Seq<char>, Seq<char>, Seq<char>, Seq<char>, Seq<char>, Seq<char>),
) -> Map<Seq<char>, Seq<char>> {
    let p12 = or_insert(p, "border-top-width"@, m.0);
    let p13 = or_insert(p12, "border-right-width"@, m.1);
    let p14 = or_insert(p13, "border-bottom-width"@, m.2);
    let p15 = or_insert(p14, "border-left-width"@, m.3);
    let p16 = or_insert(p15, "padding-top"@, m.4);
    let p17 = or_insert(p16, "padding-right"@, m.5);
    let p18 = or_insert(p17, "padding-bottom"@, m.6);
    let p19 = or_insert(p18, "padding-left"@, m.7);
    let p20 = or_insert(p19, "margin-top"@, "0px"@);
    let p21 = or_insert(p20, "margin-right"@, "0px"@);
    let p22 = or_insert(p21, "margin-bottom"@, "0px"@);
    or_insert(p22, "margin-left"@, "0px"@)
}

/// The resolved values: the inline declarations with the display set,
/// then the defaults of the other properties and of the box.
pub open spec fn resolved_style_spec(
    inline: Map<Seq<char>, Seq<char>>,
    hidden: bool,
    tag: Seq<char>,
    m: (Seq<char>, Seq<char>, Seq<char>, Seq<char>, Seq<char>, Seq<char>, Seq<char>, Seq<char>),
) -> Map<Seq<char>, Seq<char>> {
    box_defaults(style_defaults(inline.insert("display"@, resolved_display(inline, hidden, tag))), m)
}

/// A later declaration of a name replaces an earlier one; a piece that is
/// no declaration leaves the declarations as they were.
pub proof fn law_later_declaration_wins(pieces: Seq<Seq<char>>, piece: Seq<char>)
    ensures
        declaration_entry(piece) is None ==> declarations_map(pieces.push(piece)) == declarations_map(pieces),
        declaration_entry(piece) is Some ==> ({
            let (n, v) = declaration_entry(piece)->0;
            &&& declarations_map(pieces.push(piece)).dom().contains(n)
            &&& declarations_map(pieces.push(piece))[n] == v
            &&& forall|k: Seq<char>|
                k != n ==> #[trigger] declarations_map(pieces.push(piece)).dom().contains(k)
                    == declarations_map(pieces).dom().contains(k)
        }),
{
    assert(pieces.push(piece).drop_last() =~= pieces);
}

/// A name keeps its value through a default applied to any name, and the
/// default's name is then set.
proof fn lemma_or_insert_keeps(m: Map<Seq<char>, Seq<char>>, k: Seq<char>, v: Seq<char>)
    ensures
        forall|j: Seq<char>|
            m.dom().contains(j) ==> #[trigger] or_insert(m, k, v).dom().contains(j) && or_insert(m, k, v)[j] == m[j],
        or_insert(m, k, v).dom().contains(k),
        !m.dom().contains(k) ==> or_insert(m, k, v)[k] == v,
{
}

/// The defaults of the other properties keep every declared property and
/// set visibility to visible and opacity to 1 where they are not declared.
pub proof fn law_style_defaults_keep_declarations(p0: Map<Seq<char>, Seq<char>>, k: Seq<char>)
    ensures
        p0.dom().contains(k) ==> style_defaults(p0).dom().contains(k) && style_defaults(p0)[k] == p0[k],
        !p0.dom().contains("visibility"@) ==> style_defaults(p0)["visibility"@] == "visible"@,
        !p0.dom().contains("opacity"@) ==> style_defaults(p0)["opacity"@] == "1"@,
{
    reveal_strlit("visibility");
    reveal_strlit("opacity");
    assert("visibility"@[0] != "opacity"@[0]);
    let p1 = or_insert(p0, "visibility"@, "visible"@);
    lemma_or_insert_keeps(p0, "visibility"@, "visible"@);
    let p2 = or_insert(p1, "opacity"@, "1"@);
    lemma_or_insert_keeps(p1, "opacity"@, "1"@);
    let p3 = or_insert(p2, "transform"@, "none"@);
    lemma_or_insert_keeps(p2, "transform"@, "none"@);
    let p4 = or_insert(p3, "pointer-events"@, "auto"@);
    lemma_or_insert_keeps(p3, "pointer-events"@, "auto"@);
    let p5 = or_insert(p4, "position"@, "static"@);
    lemma_or_insert_keeps(p4, "position"@, "static"@);
    let p6 = or_insert(p5, "white-space"@, "normal"@);
    lemma_or_insert_keeps(p5, "white-space"@, "normal"@);
    let p7 = or_insert(p6, "cursor"@, "auto"@);
    lemma_or_insert_keeps(p6, "cursor"@, "auto"@);
    let p8 = or_insert(p7, "content"@, "none"@);
    lemma_or_insert_keeps(p7, "content"@, "none"@);
    let p9 = or_insert(p8, "overflow"@, "visible"@);
    lemma_or_insert_keeps(p8, "overflow"@, "visible"@);
    let overflow = p9["overflow"@];
    let p10 = or_insert(p9, "overflow-x"@, overflow);
    lemma_or_insert_keeps(p9, "overflow-x"@, overflow);
    let p11 = or_insert(p10, "overflow-y"@, overflow);
    lemma_or_insert_keeps(p10, "overflow-y"@, overflow);
    assert(p11 == style_defaults(p0));
}

/// The box defaults keep every declared property and set the margins to
/// zero where they are not declared.
pub proof fn law_box_defaults_keep_declarations(
    p0: Map<Seq<char>, Seq<char>>,
    m: (Seq<char>, Seq<char>, Seq<char>, Seq<char>, Seq<char>, Seq<char>, Seq<char>, Seq<char>),
    k: Seq<char>,
)
    ensures
        p0.dom().contains(k) ==> box_defaults(p0, m).dom().contains(k) && box_defaults(p0, m)[k] == p0[k],
        !p0.dom().contains("margin-top"@) ==> box_defaults(p0, m)["margin-top"@] == "0px"@,
        !p0.dom().contains("margin-left"@) ==> box_defaults(p0, m)["margin-left"@] == "0px"@,
{
    reveal_strlit("border-top-width");
    reveal_strlit("border-right-width");
    reveal_strlit("border-bottom-width");
    reveal_strlit("border-left-width");
    reveal_strlit("padding-top");
    reveal_strlit("padding-right");
    reveal_strlit("padding-bottom");
    reveal_strlit("padding-left");
    reveal_strlit("margin-top");
    reveal_strlit("margin-right");
    reveal_strlit("margin-bottom");
    reveal_strlit("margin-left");
    assert("margin-top"@[0] != "border-top-width"@[0]);
    assert("margin-top"@[0] != "border-right-width"@[0]);
    assert("margin-top"@[0] != "border-bottom-width"@[0]);
    assert("margin-top"@[0] != "border-left-width"@[0]);
    assert("margin-top"@[0] != "padding-top"@[0]);
    assert("margin-top"@[0] != "padding-right"@[0]);
    assert("margin-top"@[0] != "padding-bottom"@[0]);
    assert("margin-top"@[0] != "padding-left"@[0]);
    assert("margin-left"@[0] != "border-top-width"@[0]);
    assert("margin-left"@[0] != "border-right-width"@[0]);
    assert("margin-left"@[0] != "border-bottom-width"@[0]);
    assert("margin-left"@[0] != "border-left-width"@[0]);
    assert("margin-left"@[0] != "padding-top"@[0]);
    assert("margin-left"@[0] != "padding-right"@[0]);
    assert("margin-left"@[0] != "padding-bottom"@[0]);
    assert("margin-left"@[0] != "padding-left"@[0]);
    assert("margin-left"@[7] != "margin-top"@[7]);
    assert("margin-left"@[7] != "margin-right"@[7]);
    assert("margin-left"@[7] != "margin-bottom"@[7]);
    let p1 = or_insert(p0, "border-top-width"@, m.0);
    lemma_or_insert_keeps(p0, "border-top-width"@, m.0);
    let p2 = or_insert(p1, "border-right-width"@, m.1);
    lemma_or_insert_keeps(p1, "border-right-width"@, m.1);
    let p3 = or_insert(p2, "border-bottom-width"@, m.2);
    lemma_or_insert_keeps(p2, "border-bottom-width"@, m.2);
    let p4 = or_insert(p3, "border-left-width"@, m.3);
    lemma_or_insert_keeps(p3, "border-left-width"@, m.3);
    let p5 = or_insert(p4, "padding-top"@, m.4);
    lemma_or_insert_keeps(p4, "padding-top"@, m.4);
    let p6 = or_insert(p5, "padding-right"@, m.5);
    lemma_or_insert_keeps(p5, "padding-right"@, m.5);
    let p7 = or_insert(p6, "padding-bottom"@, m.6);
    lemma_or_insert_keeps(p6, "padding-bottom"@, m.6);
    let p8 = or_insert(p7, "padding-left"@, m.7);
    lemma_or_insert_keeps(p7, "padding-left"@, m.7);
    let p9 = or_insert(p8, "margin-top"@, "0px"@);
    lemma_or_insert_keeps(p8, "margin-top"@, "0px"@);
    let p10 = or_insert(p9, "margin-right"@, "0px"@);
    lemma_or_insert_keeps(p9, "margin-right"@, "0px"@);
    let p11 = or_insert(p10, "margin-bottom"@, "0px"@);
    lemma_or_insert_keeps(p10, "margin-bottom"@, "0px"@);
    let p12 = or_insert(p11, "margin-left"@, "0px"@);
    lemma_or_insert_keeps(p11, "margin-left"@, "0px"@);
    assert(p12 == box_defaults(p0, m));
}

/// The resolved style keeps every declared property but display, and its
/// display is the resolved display.
pub proof fn law_resolved_style_keeps_declarations(
    inline: Map<Seq<char>, Seq<char>>,
    hidden: bool,
    tag: Seq<char>,
    m: (Seq<char>, Seq<char>, Seq<char>, Seq<char>, Seq<char>, Seq<char>, Seq<char>, Seq<char>),
    k: Seq<char>,
)
    ensures
        ({
            let r = resolved_style_spec(inline, hidden, tag, m);
            &&& r.dom().contains("display"@) && r["display"@] == resolved_display(inline, hidden, tag)
            &&& inline.dom().contains(k) && k != "display"@ ==> r.dom().contains(k) && r[k] == inline[k]
        }),
{
    let p0 = inline.insert("display"@, resolved_display(inline, hidden, tag));
    let p1 = style_defaults(p0);
    law_style_defaults_keep_declarations(p0, k);
    law_style_defaults_keep_declarations(p0, "display"@);
    law_box_defaults_keep_declarations(p1, m, k);
    law_box_defaults_keep_declarations(p1, m, "display"@);
}

fn apply_style_defaults(p: &mut StyleProperties)
    requires
        old(p).wf(),
    ensures
        final(p).wf(),
        final(p)@ == style_defaults(old(p)@),
{
    p.insert_if_absent("visibility", "visible");
    p.insert_if_absent("opacity", "1");
    p.insert_if_absent("transform", "none");
    p.insert_if_absent("pointer-events", "auto");
    p.insert_if_absent("position", "static");
    p.insert_if_absent("white-space", "normal");
    p.insert_if_absent("cursor", "auto");
    p.insert_if_absent("content", "none");
    p.insert_if_absent("overflow", "visible");
    let overflow = match p.get("overflow") {
        Some(o) => o,
        None => String::from_str("visible"),
    };
    p.insert_if_absent("overflow-x", overflow.as_str());
    p.insert_if_absent("overflow-y", overflow.as_str());
}

fn apply_box_defaults(p: &mut StyleProperties, metrics: &BoxMetricsText)
    requires
        old(p).wf(),
    ensures
        final(p).wf(),
        final(p)@ == box_defaults(old(p)@, metrics_view(metrics)),
{
    p.insert_if_absent("border-top-width", metrics.border_top.as_str());
    p.insert_if_absent("border-right-width", metrics.border_right.as_str());
    p.insert_if_absent("border-bottom-width", metrics.border_bottom.as_str());
    p.insert_if_absent("border-left-width", metrics.border_left.as_str());
    p.insert_if_absent("padding-top", metrics.padding_top.as_str());
    p.insert_if_absent("padding-right", metrics.padding_right.as_str());
    p.insert_if_absent("padding-bottom", metrics.padding_bottom.as_str());
    p.insert_if_absent("padding-left", metrics.padding_left.as_str());
    p.insert_if_absent("margin-top", "0px");
    p.insert_if_absent("margin-right", "0px");
    p.insert_if_absent("margin-bottom", "0px");
    p.insert_if_absent("margin-left", "0px");
}

/// The metrics as character sequences.
pub open spec fn metrics_view(m: &BoxMetricsText) -> (
    Seq<char>,
    Seq<char>,
    Seq<char>,
    Seq<char>,
    Seq<char>,
    Seq<char>,
    Seq<char>,
    Seq<char>,
) {
    (
        m.border_top@,
        m.border_right@,
        m.border_bottom@,
        m.border_left@,
        m.padding_top@,
        m.padding_right@,
        m.padding_bottom@,
        m.padding_left@,
    )
}

/// The tag name of an element: its local name uppercased.
pub open spec fn tag_name_spec(t: Seq<Option<NodeModel>>, id: int) -> Seq<char> {
    if live(t, id) && node(t, id).data is Element {
        crate::text::ascii_upper_seq(node(t, id).data->Element_local)
    } else {
        Seq::empty()
    }
}

/// The resolved style values of an element, as the computed-style getter
/// reports them (see [`resolved_style_spec`]).
pub fn resolved_style_properties_for_element(tree: &DomTree, id: usize, metrics: &BoxMetricsText) -> (props:
    StyleProperties)
    ensures
        props.wf(),
        props@ == resolved_style_spec(
            inline_style_spec(get_attribute_spec(tree@, id as int, "style"@)),
            get_attribute_spec(tree@, id as int, "hidden"@) is Some,
            tag_name_spec(tree@, id as int),
            metrics_view(metrics),
        ),
{
    let mut p = inline_style_properties_for_element(tree, id);
    let ghost inline = p@;
    proof {
        reveal_strlit("hidden");
        reveal_strlit("display");
        reveal_strlit("none");
    }
    let display = if tree.has_attribute(id, "hidden") {
        String::from_str("none")
    } else {
        match p.get("display") {
            Some(d) => d,
            None => {
                let tag = tree.tag_name(id);
                String::from_str(default_display_for_tag_name(tag.as_str()))
            },
        }
    };
    p.insert("display", display.as_str());
    apply_style_defaults(&mut p);
    apply_box_defaults(&mut p, metrics);
    p
}

/// The value sanitization of a text input: line feeds and carriage
/// returns removed.
pub open spec fn strip_newlines(s: Seq<char>) -> Seq<char>
    decreases s.len(),
{
    if s.len() == 0 {
        s
    } else {
        let rest = strip_newlines(s.drop_last());
        if s.last() == '\n' || s.last() == '\r' {
            rest
        } else {
            rest.push(s.last())
        }
    }
}

/// The value sanitization algorithm of a text input.
pub fn value_to_string(value: &str) -> (s: String)
    ensures
        s@ == strip_newlines(value@),
{
    let chars = chars_of(value);
    let mut out: Vec<char> = Vec::new();
    let mut i: usize = 0;
    while i < chars.len()
        invariant
            chars@ == value@,
            i <= chars@.len(),
            out@ == strip_newlines(chars@.take(i as int)),
        decreases chars@.len() - i,
    {
        assert(chars@.take(i + 1).drop_last() =~= chars@.take(i as int));
        let c = chars[i];
        if c != '\n' && c != '\r' {
            out.push(c);
        }
        i = i + 1;
    }
    assert(chars@.take(chars@.len() as int) =~= chars@);
    string_from_chars(out.as_slice())
}

/// An input element, by its node.
pub struct HTMLInputElement {
    pub node_id: usize,
}

impl HTMLInputElement {
    pub fn new(node_id: usize) -> (e: Self)
        ensures
            e.node_id == node_id,
    {
        HTMLInputElement { node_id }
    }

    /// value: the text the user typed where the element has text-input
    /// state, otherwise the `value` content attribute, otherwise empty.
    pub fn value(&self, tree: &DomTree, typed_text: Option<&str>) -> (s: String)
        ensures
            s@ == match typed_text {
                Some(t) => t@,
                None => reflected_string(tree@, self.node_id as int, "value"@),
            },
    {
        match typed_text {
            Some(t) => String::from_str(t),
            None => {
                proof {
                    reveal_strlit("value");
                }
                get_reflected_string(tree, self.node_id, "value")
            },
        }
    }

    /// Setting value: the sanitized value is written to the `value`
    /// content attribute, which is removed where the value is empty.
    pub fn set_value(&self, tree: &mut DomTree, value: &str)
        ensures
            tree_wf(final(tree)@),
            final(tree)@ == if strip_newlines(value@).len() == 0 {
                remove_attribute_spec(old(tree)@, self.node_id as int, "value"@)
            } else {
                set_string_attr_spec(old(tree)@, self.node_id as int, "value"@, strip_newlines(value@))
            },
    {
        proof {
            use_type_invariant(&*tree);
        }
        proof {
            reveal_strlit("value");
        }
        let sanitized = value_to_string(value);
        if sanitized.as_str().unicode_len() == 0 {
            tree.remove_attribute(self.node_id, "value");
        } else {
            tree.set_attribute(self.node_id, "value", sanitized.as_str());
        }
    }
}

} // verus!

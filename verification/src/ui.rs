use crate::text::{is_blank, trim_spec};
use vstd::prelude::*;

verus! {

/// An accessibility frame, each coordinate held as the bit pattern of its
/// `f64`.
#[derive(Debug, Clone, Copy, PartialEq, Eq, Structural)]
pub struct FrameBits {
    pub x: u64,
    pub y: u64,
    pub width: u64,
    pub height: u64,
}

/// One accessibility element of the foreground app.
#[derive(Debug)]
pub struct Element {
    pub role: String,
    pub reference: Option<u64>,
    pub identifier: Option<String>,
    pub label: Option<String>,
    pub value: Option<String>,
    pub index: Option<u32>,
    pub frame: Option<FrameBits>,
}

/// The value of an element, over character sequences.
pub struct ElementView {
    pub role: Seq<char>,
    pub reference: Option<u64>,
    pub identifier: Option<Seq<char>>,
    pub label: Option<Seq<char>>,
    pub value: Option<Seq<char>>,
    pub index: Option<u32>,
    pub frame: Option<FrameBits>,
}

/// The view of an optional string.
pub open spec fn opt_view(s: Option<String>) -> Option<Seq<char>> {
    match s {
        Some(v) => Some(v@),
        None => None,
    }
}

impl View for Element {
    type V = ElementView;

    open spec fn view(&self) -> ElementView {
        ElementView {
            role: self.role@,
            reference: self.reference,
            identifier: opt_view(self.identifier),
            label: opt_view(self.label),
            value: opt_view(self.value),
            index: self.index,
            frame: self.frame,
        }
    }
}

/// The views of a sequence of elements.
pub open spec fn element_views(es: Seq<Element>) -> Seq<ElementView> {
    es.map_values(|e: Element| e@)
}

/// A copy of an optional string.
pub fn clone_opt(s: &Option<String>) -> (r: Option<String>)
    ensures
        opt_view(r) == opt_view(*s),
{
    match s {
        Some(v) => Some(v.clone()),
        None => None,
    }
}

/// Whether two optional strings are equal.
pub fn same_opt(a: &Option<String>, b: &Option<String>) -> (r: bool)
    ensures
        r == (opt_view(*a) == opt_view(*b)),
{
    match (a, b) {
        (Some(x), Some(y)) => *x == *y,
        (None, None) => true,
        _ => false,
    }
}

impl Clone for Element {
    fn clone(&self) -> (r: Self)
        ensures
            r@ == self@,
    {
        Element {
            role: self.role.clone(),
            reference: self.reference,
            identifier: clone_opt(&self.identifier),
            label: clone_opt(&self.label),
            value: clone_opt(&self.value),
            index: self.index,
            frame: self.frame,
        }
    }
}

/// Whether the `f64` with bit pattern `b` is a NaN: all exponent bits set
/// and a nonzero fraction.
pub open spec fn nan_bits(b: u64) -> bool {
    (b & 0x7ff0_0000_0000_0000u64) == 0x7ff0_0000_0000_0000u64 && (b & 0x000f_ffff_ffff_ffffu64)
        != 0u64
}

/// IEEE equality of two `f64`s given by their bit patterns: a NaN equals
/// nothing, itself included, and +0.0 equals -0.0; otherwise equal values
/// have equal bits.
pub open spec fn float_eq(a: u64, b: u64) -> bool {
    &&& !nan_bits(a)
    &&& !nan_bits(b)
    &&& (a == b || ((a & 0x7fff_ffff_ffff_ffffu64) == 0u64 && (b & 0x7fff_ffff_ffff_ffffu64)
        == 0u64))
}

/// Compares two `f64`s, given by their bit patterns, as `==` on `f64` does.
pub fn same_float(a: u64, b: u64) -> (r: bool)
    ensures
        r == float_eq(a, b),
{
    let a_nan = (a & 0x7ff0_0000_0000_0000u64) == 0x7ff0_0000_0000_0000u64 && (a
        & 0x000f_ffff_ffff_ffffu64) != 0u64;
    let b_nan = (b & 0x7ff0_0000_0000_0000u64) == 0x7ff0_0000_0000_0000u64 && (b
        & 0x000f_ffff_ffff_ffffu64) != 0u64;
    !a_nan && !b_nan && (a == b || ((a & 0x7fff_ffff_ffff_ffffu64) == 0u64 && (b
        & 0x7fff_ffff_ffff_ffffu64) == 0u64))
}

/// Whether two optional frames are equal, coordinate by coordinate as
/// `f64`s.
pub open spec fn frame_eq(a: Option<FrameBits>, b: Option<FrameBits>) -> bool {
    match (a, b) {
        (Some(f), Some(g)) => float_eq(f.x, g.x) && float_eq(f.y, g.y) && float_eq(f.width, g.width)
            && float_eq(f.height, g.height),
        (None, None) => true,
        _ => false,
    }
}

/// Whether no coordinate of a frame is a NaN.
pub open spec fn frame_without_nan(f: Option<FrameBits>) -> bool {
    f matches Some(g) ==> !nan_bits(g.x) && !nan_bits(g.y) && !nan_bits(g.width) && !nan_bits(
        g.height,
    )
}

/// Whether two elements are equal: equal texts, reference and index, and
/// frames equal as `f64`s.
pub open spec fn element_eq(a: ElementView, b: ElementView) -> bool {
    &&& a.role == b.role
    &&& a.reference == b.reference
    &&& a.identifier == b.identifier
    &&& a.label == b.label
    &&& a.value == b.value
    &&& a.index == b.index
    &&& frame_eq(a.frame, b.frame)
}

/// An element whose frame holds no NaN equals itself.
pub proof fn lemma_element_eq_refl(e: ElementView)
    requires
        frame_without_nan(e.frame),
    ensures
        element_eq(e, e),
{
}

/// Whether two optional frames are equal as `f64`s.
pub fn same_frame(a: &Option<FrameBits>, b: &Option<FrameBits>) -> (r: bool)
    ensures
        r == frame_eq(*a, *b),
{
    match (a, b) {
        (Some(f), Some(g)) => same_float(f.x, g.x) && same_float(f.y, g.y) && same_float(
            f.width,
            g.width,
        ) && same_float(f.height, g.height),
        (None, None) => true,
        _ => false,
    }
}

impl Element {
    /// Whether two elements are equal, frames compared as `f64`s.
    pub fn same_as(&self, other: &Element) -> (r: bool)
        ensures
            r == element_eq(self@, other@),
    {
        self.role == other.role && self.reference == other.reference && same_opt(
            &self.identifier,
            &other.identifier,
        ) && same_opt(&self.label, &other.label) && same_opt(&self.value, &other.value)
            && self.index == other.index && same_frame(&self.frame, &other.frame)
    }
}

/// A snapshot of the foreground app's accessibility tree.
#[derive(Debug)]
pub struct Screen {
    pub device: String,
    pub pid: Option<u32>,
    /// Bit pattern of the `f64` screen width in points.
    pub width_bits: u64,
    /// Bit pattern of the `f64` screen height in points.
    pub height_bits: u64,
    pub hash: Option<String>,
    pub elements: Vec<Element>,
}

/// The value of a screen, over character sequences.
pub struct ScreenView {
    pub device: Seq<char>,
    pub pid: Option<u32>,
    pub width_bits: u64,
    pub height_bits: u64,
    pub hash: Option<Seq<char>>,
    pub elements: Seq<ElementView>,
}

impl View for Screen {
    type V = ScreenView;

    open spec fn view(&self) -> ScreenView {
        ScreenView {
            device: self.device@,
            pid: self.pid,
            width_bits: self.width_bits,
            height_bits: self.height_bits,
            hash: opt_view(self.hash),
            elements: element_views(self.elements@),
        }
    }
}

/// A copy of a list of elements.
pub fn clone_elements(es: &Vec<Element>) -> (r: Vec<Element>)
    ensures
        element_views(r@) == element_views(es@),
{
    let mut out: Vec<Element> = Vec::new();
    let mut i: usize = 0;
    while i < es.len()
        invariant
            i <= es.len(),
            element_views(out@) == element_views(es@).take(i as int),
        decreases es.len() - i,
    {
        let ghost before = out@;
        out.push(es[i].clone());
        assert(element_views(out@) =~= element_views(before).push(es@[i as int]@));
        i += 1;
        assert(element_views(out@) =~= element_views(es@).take(i as int));
    }
    assert(element_views(es@).take(es.len() as int) =~= element_views(es@));
    out
}

impl Clone for Screen {
    fn clone(&self) -> (r: Self)
        ensures
            r@ == self@,
    {
        Screen {
            device: self.device.clone(),
            pid: self.pid,
            width_bits: self.width_bits,
            height_bits: self.height_bits,
            hash: clone_opt(&self.hash),
            elements: clone_elements(&self.elements),
        }
    }
}

/// Picks one element by accessibility identifier or label, optionally
/// narrowed by role.
#[derive(Debug)]
pub struct Selector {
    /// Accessibility identifier from mx_ui. Provide exactly one of identifier or label.
    pub identifier: Option<String>,
    /// Exact accessibility label. Ambiguous matches are rejected.
    pub label: Option<String>,
    /// Optional accessibility type such as Button or TextField.
    pub role: Option<String>,
}

/// Why a selector is refused.
#[derive(Debug, Clone, Copy, PartialEq, Eq)]
pub enum SelectorError {
    /// Neither or both of identifier and label were given.
    NotExactlyOne,
    /// A given field is blank.
    Empty,
}

impl SelectorError {
    /// The error as text.
    pub fn message(&self) -> (r: &'static str)
        ensures
            r@ == match self {
                SelectorError::NotExactlyOne => "Provide exactly one of identifier or label"@,
                SelectorError::Empty => "UI selectors cannot be empty"@,
            },
    {
        match self {
            SelectorError::NotExactlyOne => "Provide exactly one of identifier or label",
            SelectorError::Empty => "UI selectors cannot be empty",
        }
    }
}

/// Whether an optional text is given and blank.
pub open spec fn blank_opt(s: Option<Seq<char>>) -> bool {
    s matches Some(v) && trim_spec(v).len() == 0
}

fn blank_opt_exec(s: &Option<String>) -> (r: bool)
    ensures
        r == blank_opt(opt_view(*s)),
{
    match s {
        Some(v) => is_blank(v.as_str()),
        None => false,
    }
}

impl Selector {
    /// The verdict on a selector: exactly one of identifier and label must
    /// be given, and no given field may be blank.
    pub open spec fn validate_spec(self) -> Result<(), SelectorError> {
        if self.identifier.is_some() == self.label.is_some() {
            Err(SelectorError::NotExactlyOne)
        } else if blank_opt(opt_view(self.identifier)) || blank_opt(opt_view(self.label))
            || blank_opt(opt_view(self.role)) {
            Err(SelectorError::Empty)
        } else {
            Ok(())
        }
    }

    /// Accepts a selector with exactly one of identifier and label and no
    /// blank field.
    pub fn validate(&self) -> (r: Result<(), SelectorError>)
        ensures
            r == self.validate_spec(),
    {
        if self.identifier.is_some() == self.label.is_some() {
            return Err(SelectorError::NotExactlyOne);
        }
        if blank_opt_exec(&self.identifier) || blank_opt_exec(&self.label) || blank_opt_exec(
            &self.role,
        ) {
            return Err(SelectorError::Empty);
        }
        Ok(())
    }

    /// Whether the selector picks `e`: each given field equals the element's.
    pub open spec fn matches_spec(self, e: ElementView) -> bool {
        &&& (self.identifier matches Some(id) ==> e.identifier == Some(id@))
        &&& (self.label matches Some(l) ==> e.label == Some(l@))
        &&& (self.role matches Some(r) ==> e.role == r@)
    }

    /// Whether the selector picks `element`.
    pub fn matches(&self, element: &Element) -> (r: bool)
        ensures
            r == self.matches_spec(element@),
    {
        let id_ok = match &self.identifier {
            Some(id) => match &element.identifier {
                Some(x) => *x == *id,
                None => false,
            },
            None => true,
        };
        let label_ok = match &self.label {
            Some(l) => match &element.label {
                Some(x) => *x == *l,
                None => false,
            },
            None => true,
        };
        let role_ok = match &self.role {
            Some(r) => element.role == *r,
            None => true,
        };
        id_ok && label_ok && role_ok
    }
}


/// How many of `es` the selector picks.
pub open spec fn match_count(sel: Selector, es: Seq<ElementView>) -> nat
    decreases es.len(),
{
    if es.len() == 0 {
        0
    } else {
        match_count(sel, es.drop_last()) + if sel.matches_spec(es.last()) {
            1nat
        } else {
            0nat
        }
    }
}

/// A selector that picks nothing in `es` has a match count of zero, and
/// one that picks element `i` has a count of at least one.
pub proof fn lemma_match_count_positive(sel: Selector, es: Seq<ElementView>, i: int)
    requires
        0 <= i < es.len(),
        sel.matches_spec(es[i]),
    ensures
        match_count(sel, es) >= 1,
    decreases es.len(),
{
    if i < es.len() - 1 {
        lemma_match_count_positive(sel, es.drop_last(), i);
    }
}

/// Two picked elements at distinct places make a count of at least two.
pub proof fn lemma_match_count_two(sel: Selector, es: Seq<ElementView>, i: int, j: int)
    requires
        0 <= i < j < es.len(),
        sel.matches_spec(es[i]),
        sel.matches_spec(es[j]),
    ensures
        match_count(sel, es) >= 2,
    decreases es.len(),
{
    if j < es.len() - 1 {
        lemma_match_count_two(sel, es.drop_last(), i, j);
    } else {
        lemma_match_count_positive(sel, es.drop_last(), i);
    }
}

/// Why a tap by selector is refused.
#[derive(Debug, Clone, Copy, PartialEq, Eq)]
pub enum TapError {
    /// The selector itself is refused.
    Selector(SelectorError),
    /// The selector picks this many elements, not exactly one.
    Matched(usize),
}

impl TapError {
    /// The error as text.
    pub fn message(&self) -> (r: String)
        ensures
            r@ == match self {
                TapError::Selector(SelectorError::NotExactlyOne) => "Provide exactly one of identifier or label"@,
                TapError::Selector(SelectorError::Empty) => "UI selectors cannot be empty"@,
                TapError::Matched(n) => "UI selector matched "@ + crate::text::decimal(*n as nat)
                    + " elements; inspect again and use a unique identifier or role"@,
            },
    {
        match self {
            TapError::Selector(e) => {
                let m = e.message();
                let mut s = String::new();
                crate::text::push_str(&mut s, m);
                proof {
                    assert(s@ =~= m@);
                }
                s
            },
            TapError::Matched(n) => {
                let mut s = String::new();
                crate::text::push_str(&mut s, "UI selector matched ");
                crate::text::push_decimal(&mut s, *n as u64);
                crate::text::push_str(&mut s, " elements; inspect again and use a unique identifier or role");
                proof {
                    assert(s@ =~= "UI selector matched "@ + crate::text::decimal(*n as nat)
                        + " elements; inspect again and use a unique identifier or role"@);
                }
                s
            },
        }
    }
}

/// The one element a tap by selector reaches, as its frame (`None` when the
/// element has no frame). A refused selector, or one that picks no element
/// or several, fails and no input is sent.
pub fn tap_target(screen: &Screen, selector: &Selector) -> (r: Result<Option<FrameBits>, TapError>)
    ensures
        selector.validate_spec() matches Err(e) ==> r == Err::<Option<FrameBits>, TapError>(
            TapError::Selector(e),
        ),
        selector.validate_spec() is Ok ==> {
            let es = screen@.elements;
            let n = match_count(*selector, es);
            &&& n != 1 ==> r == Err::<Option<FrameBits>, TapError>(TapError::Matched(n as usize))
            &&& n == 1 ==> (exists|i: int| 0 <= i < es.len() && selector.matches_spec(es[i]))
            &&& n == 1 ==> forall|i: int|
                0 <= i < es.len() && #[trigger] selector.matches_spec(es[i]) ==> r
                    == Ok::<Option<FrameBits>, TapError>(es[i].frame)
        },
{
    match selector.validate() {
        Err(e) => {
            return Err(TapError::Selector(e));
        },
        Ok(()) => {},
    }
    let ghost es = screen@.elements;
    let mut count: usize = 0;
    let mut found: Option<usize> = None;
    let mut i: usize = 0;
    while i < screen.elements.len()
        invariant
            es == screen@.elements,
            i <= screen.elements.len(),
            count as nat == match_count(*selector, es.take(i as int)),
            count <= i,
            found is None <==> count == 0,
            found matches Some(j) ==> j < i && selector.matches_spec(es[j as int]) && forall|m: int|
                0 <= m < j ==> !selector.matches_spec(#[trigger] es[m]),
            found is None ==> forall|m: int| 0 <= m < i ==> !selector.matches_spec(#[trigger] es[m]),
        decreases screen.elements.len() - i,
    {
        assert(es.take(i as int + 1).drop_last() =~= es.take(i as int));
        assert(es[i as int] == screen.elements@[i as int]@);
        if selector.matches(&screen.elements[i]) {
            count += 1;
            if found.is_none() {
                found = Some(i);
            }
        }
        i += 1;
    }
    assert(es.take(i as int) =~= es);
    if count != 1 {
        return Err(TapError::Matched(count));
    }
    let j = found.unwrap();
    proof {
        assert forall|k: int|
            0 <= k < es.len() && #[trigger] selector.matches_spec(es[k]) implies k == j as int by {
            if k > j {
                lemma_match_count_two(*selector, es, j as int, k);
            }
        }
    }
    Ok(screen.elements[j].frame)
}

/// A JSON value of the accessibility hierarchy; a number is kept as its
/// text, an object as its entries in order.
#[derive(Debug)]
pub enum Json {
    Null,
    Bool(bool),
    Number(String),
    Str(String),
    Array(Vec<Json>),
    Object(Vec<(String, Json)>),
}

/// Why an accessibility hierarchy was refused.
#[derive(Debug, Clone, Copy, PartialEq, Eq, Structural)]
pub enum TreeError {
    /// The roots are not an array.
    RootsNotArray,
    /// An element is not an object.
    NotObject,
    /// An element's `children` is neither null nor an array.
    ChildrenNotArray,
    /// The text is not JSON.
    InvalidJson,
}

impl TreeError {
    /// The error as text.
    pub fn message(&self) -> (r: String)
        ensures
            match self {
                TreeError::RootsNotArray => r@ == "Accessibility response must be an array"@,
                TreeError::NotObject => r@ == "Accessibility element must be an object"@,
                TreeError::ChildrenNotArray => r@ == "children must be an array"@,
                TreeError::InvalidJson => r@ == "Guest returned invalid accessibility JSON"@,
            },
    {
        match self {
            TreeError::RootsNotArray => String::from_str("Accessibility response must be an array"),
            TreeError::NotObject => String::from_str("Accessibility element must be an object"),
            TreeError::ChildrenNotArray => String::from_str("children must be an array"),
            TreeError::InvalidJson => String::from_str("Guest returned invalid accessibility JSON"),
        }
    }
}

/// Index of the first entry named `key`.
pub open spec fn entry_index(entries: Seq<(String, Json)>, key: Seq<char>) -> Option<int>
    decreases entries.len(),
{
    if entries.len() == 0 {
        None
    } else if entries[0].0@ == key {
        Some(0)
    } else {
        match entry_index(entries.skip(1), key) {
            Some(j) => Some(j + 1),
            None => None,
        }
    }
}

pub proof fn lemma_entry_index(entries: Seq<(String, Json)>, key: Seq<char>)
    ensures
        match entry_index(entries, key) {
            Some(i) => {
                &&& 0 <= i < entries.len()
                &&& entries[i].0@ == key
                &&& forall|j: int| 0 <= j < i ==> (#[trigger] entries[j]).0@ != key
            },
            None => forall|j: int| 0 <= j < entries.len() ==> (#[trigger] entries[j]).0@ != key,
        },
    decreases entries.len(),
{
    if entries.len() > 0 && entries[0].0@ != key {
        lemma_entry_index(entries.skip(1), key);
        assert forall|j: int| 1 <= j < entries.len() implies entries[j] == entries.skip(1)[j - 1] by {}
    }
}

/// The text a scalar stands for: a string that is not blank, a number's
/// text, or `true` / `false`.
pub open spec fn scalar_text(v: Json) -> Option<Seq<char>> {
    match v {
        Json::Str(s) => if trim_spec(s@).len() == 0 {
            None
        } else {
            Some(s@)
        },
        Json::Number(n) => Some(n@),
        Json::Bool(b) => Some(if b { "true"@ } else { "false"@ }),
        _ => None,
    }
}

/// The scalar text of the entry `key`, if it has one.
pub open spec fn entry_scalar(entries: Seq<(String, Json)>, key: Seq<char>) -> Option<Seq<char>> {
    match entry_index(entries, key) {
        Some(i) => scalar_text(entries[i].1),
        None => None,
    }
}

/// The first of two optional texts that is there.
pub open spec fn first_of(a: Option<Seq<char>>, b: Option<Seq<char>>) -> Option<Seq<char>> {
    if a is Some {
        a
    } else {
        b
    }
}

/// What an element object contributes: one element when it has a label,
/// identifier or value, none otherwise.
pub open spec fn node_elements(entries: Seq<(String, Json)>) -> Seq<ElementView> {
    let label = first_of(entry_scalar(entries, "AXLabel"@), entry_scalar(entries, "label"@));
    let identifier = first_of(
        entry_scalar(entries, "AXUniqueId"@),
        first_of(entry_scalar(entries, "AXIdentifier"@), entry_scalar(entries, "identifier"@)),
    );
    let value = first_of(entry_scalar(entries, "AXValue"@), entry_scalar(entries, "value"@));
    let role = first_of(entry_scalar(entries, "type"@), entry_scalar(entries, "role"@));
    if label is Some || identifier is Some || value is Some {
        seq![
            ElementView {
                role: match role {
                    Some(r) => r,
                    None => "Unknown"@,
                },
                reference: None,
                identifier,
                label,
                value,
                index: None,
                frame: None,
            },
        ]
    } else {
        seq![]
    }
}

/// The elements of an element object and its descendants, depth first, or
/// the first malformed node's error.
pub open spec fn visit_spec(node: Json) -> Result<Seq<ElementView>, TreeError>
    decreases node,
{
    match node {
        Json::Object(entries) => {
            let own = node_elements(entries@);
            match entry_index(entries@, "children"@) {
                None => Ok(own),
                Some(i) => {
                    if 0 <= i < entries@.len() {
                        match entries@[i].1 {
                            Json::Null => Ok(own),
                            Json::Array(children) => {
                                proof {
                                    assert(decreases_to!(node => entries));
                                    assert(decreases_to!(entries => entries@));
                                    assert(decreases_to!(entries@ => entries@[i]));
                                    assert(decreases_to!(entries@[i] => entries@[i].1));
                                    assert(decreases_to!(entries@[i].1 => children));
                                    assert(decreases_to!(children => children@));
                                }
                                match visit_list(children@) {
                                    Ok(rest) => Ok(own + rest),
                                    Err(e) => Err(e),
                                }
                            },
                            _ => Err(TreeError::ChildrenNotArray),
                        }
                    } else {
                        Ok(own)
                    }
                },
            }
        },
        _ => Err(TreeError::NotObject),
    }
}

/// The elements of a list of element objects, in order.
pub open spec fn visit_list(nodes: Seq<Json>) -> Result<Seq<ElementView>, TreeError>
    decreases nodes,
{
    if nodes.len() == 0 {
        Ok(seq![])
    } else {
        proof {
            assert(decreases_to!(nodes => nodes[0]));
            assert(decreases_to!(nodes => nodes.subrange(1, nodes.len() as int)));
        }
        match visit_spec(nodes[0]) {
            Err(e) => Err(e),
            Ok(first) => match visit_list(nodes.subrange(1, nodes.len() as int)) {
                Err(e) => Err(e),
                Ok(rest) => Ok(first + rest),
            },
        }
    }
}

/// The elements of a whole hierarchy: its roots must be an array.
pub open spec fn parse_elements_spec(roots: Json) -> Result<Seq<ElementView>, TreeError> {
    match roots {
        Json::Array(nodes) => visit_list(nodes@),
        _ => Err(TreeError::RootsNotArray),
    }
}


/// An element as the hierarchy yields it: it carries a label, an identifier
/// or a value, and no reference, index or frame.
pub open spec fn compact(e: ElementView) -> bool {
    &&& e.label is Some || e.identifier is Some || e.value is Some
    &&& e.reference is None
    &&& e.index is None
    &&& e.frame is None
}

proof fn lemma_node_compact(node: Json)
    ensures
        visit_spec(node) matches Ok(es) ==> forall|i: int| 0 <= i < es.len() ==> compact(#[trigger] es[i]),
    decreases node,
{
    if let Json::Object(entries) = node {
        if let Some(i) = entry_index(entries@, "children"@) {
            if 0 <= i < entries@.len() {
                if let Json::Array(children) = entries@[i].1 {
                    assert(decreases_to!(node => entries));
                    assert(decreases_to!(entries => entries@));
                    assert(decreases_to!(entries@ => entries@[i]));
                    assert(decreases_to!(entries@[i] => entries@[i].1));
                    assert(decreases_to!(entries@[i].1 => children));
                    assert(decreases_to!(children => children@));
                    lemma_list_compact(children@);
                    let own = node_elements(entries@);
                    if let Ok(rest) = visit_list(children@) {
                        assert forall|k: int| 0 <= k < (own + rest).len() implies compact(
                            #[trigger] (own + rest)[k],
                        ) by {
                            if k >= own.len() {
                                assert((own + rest)[k] == rest[k - own.len()]);
                            }
                        }
                    }
                }
            }
        }
    }
}

proof fn lemma_list_compact(nodes: Seq<Json>)
    ensures
        visit_list(nodes) matches Ok(es) ==> forall|i: int| 0 <= i < es.len() ==> compact(#[trigger] es[i]),
    decreases nodes,
{
    if nodes.len() > 0 {
        assert(decreases_to!(nodes => nodes[0]));
        assert(decreases_to!(nodes => nodes.subrange(1, nodes.len() as int)));
        lemma_node_compact(nodes[0]);
        lemma_list_compact(nodes.subrange(1, nodes.len() as int));
        if let Ok(first) = visit_spec(nodes[0]) {
            if let Ok(rest) = visit_list(nodes.subrange(1, nodes.len() as int)) {
                assert forall|k: int| 0 <= k < (first + rest).len() implies compact(
                    #[trigger] (first + rest)[k],
                ) by {
                    if k >= first.len() {
                        assert((first + rest)[k] == rest[k - first.len()]);
                    }
                }
            }
        }
    }
}

/// Parsing compacts the hierarchy: every element it yields carries a label,
/// an identifier or a value, and none carries a reference, an index or a
/// frame.
pub proof fn lemma_parsed_elements_are_compact(roots: Json)
    ensures
        parse_elements_spec(roots) matches Ok(es) ==> forall|i: int|
            0 <= i < es.len() ==> compact(#[trigger] es[i]),
{
    if let Json::Array(nodes) = roots {
        lemma_list_compact(nodes@);
    }
}

pub(crate) fn find_entry(entries: &Vec<(String, Json)>, key: &str) -> (r: Option<usize>)
    ensures
        match entry_index(entries@, key@) {
            Some(i) => r matches Some(k) && k as int == i,
            None => r is None,
        },
        r matches Some(k) ==> k < entries@.len(),
{
    proof {
        lemma_entry_index(entries@, key@);
    }
    let mut i: usize = 0;
    while i < entries.len()
        invariant
            i <= entries.len(),
            forall|j: int| 0 <= j < i ==> (#[trigger] entries@[j]).0@ != key@,
        decreases entries.len() - i,
    {
        if crate::text::str_eq(entries[i].0.as_str(), key) {
            proof {
                lemma_entry_index(entries@, key@);
                assert(entries@[i as int].0@ == key@);
                if let Some(x) = entry_index(entries@, key@) {
                    assert(entries@[x].0@ == key@);
                    assert(entries@[i as int].0@ == key@);
                }
            }
            return Some(i);
        }
        i += 1;
    }
    None
}

fn scalar(v: &Json) -> (r: Option<String>)
    ensures
        opt_view(r) == scalar_text(*v),
{
    match v {
        Json::Str(s) => {
            if is_blank(s.as_str()) {
                None
            } else {
                Some(s.clone())
            }
        },
        Json::Number(n) => Some(n.clone()),
        Json::Bool(b) => {
            if *b {
                Some(String::from_str("true"))
            } else {
                Some(String::from_str("false"))
            }
        },
        _ => None,
    }
}

fn entry_text(entries: &Vec<(String, Json)>, key: &str) -> (r: Option<String>)
    ensures
        opt_view(r) == entry_scalar(entries@, key@),
{
    match find_entry(entries, key) {
        Some(i) => scalar(&entries[i].1),
        None => None,
    }
}

fn either(a: Option<String>, b: Option<String>) -> (r: Option<String>)
    ensures
        opt_view(r) == first_of(opt_view(a), opt_view(b)),
{
    if a.is_some() {
        a
    } else {
        b
    }
}

fn visit(node: &Json, result: &mut Vec<Element>) -> (r: Result<(), TreeError>)
    ensures
        match visit_spec(*node) {
            Ok(es) => r is Ok && element_views(final(result)@) == element_views(old(result)@) + es,
            Err(e) => r == Err::<(), TreeError>(e),
        },
    decreases node,
{
    match node {
        Json::Object(entries) => {
            let label = either(entry_text(entries, "AXLabel"), entry_text(entries, "label"));
            let identifier = either(
                entry_text(entries, "AXUniqueId"),
                either(entry_text(entries, "AXIdentifier"), entry_text(entries, "identifier")),
            );
            let value = either(entry_text(entries, "AXValue"), entry_text(entries, "value"));
            let role = either(entry_text(entries, "type"), entry_text(entries, "role"));
            let ghost own = node_elements(entries@);
            let ghost before = result@;
            if label.is_some() || identifier.is_some() || value.is_some() {
                let role = match role {
                    Some(r) => r,
                    None => String::from_str("Unknown"),
                };
                result.push(
                    Element { role, reference: None, identifier, label, value, index: None, frame: None },
                );
                assert(element_views(result@) =~= element_views(before) + own);
            } else {
                assert(element_views(result@) =~= element_views(before) + own);
            }
            match find_entry(entries, "children") {
                None => Ok(()),
                Some(i) => match &entries[i].1 {
                    Json::Null => Ok(()),
                    Json::Array(children) => {
                        proof {
                            assert(decreases_to!(node => entries));
                            assert(decreases_to!(entries => entries@));
                            assert(decreases_to!(entries@ => entries@[i as int]));
                            assert(decreases_to!(entries@[i as int] => entries@[i as int].1));
                            assert(decreases_to!(entries@[i as int].1 => children));
                        }
                        let ghost mid = element_views(result@);
                        let r = visit_all(children, result);
                        proof {
                            if r is Ok {
                                assert(element_views(result@) =~= element_views(before) + (own
                                    + (element_views(result@).skip(mid.len() as int))));
                            }
                        }
                        r
                    },
                    _ => Err(TreeError::ChildrenNotArray),
                },
            }
        },
        _ => Err(TreeError::NotObject),
    }
}

fn visit_all(nodes: &Vec<Json>, result: &mut Vec<Element>) -> (r: Result<(), TreeError>)
    ensures
        match visit_list(nodes@) {
            Ok(es) => r is Ok && element_views(final(result)@) == element_views(old(result)@) + es,
            Err(e) => r == Err::<(), TreeError>(e),
        },
    decreases nodes,
{
    let ghost s = nodes@;
    let ghost start = element_views(result@);
    let ghost mut acc: Seq<ElementView> = seq![];
    let mut k: usize = 0;
    proof {
        assert(s.subrange(0, s.len() as int) =~= s);
        assert(start + acc =~= start);
    }
    while k < nodes.len()
        invariant
            k <= nodes.len(),
            s == nodes@,
            element_views(result@) == start + acc,
            visit_list(s) == match visit_list(s.subrange(k as int, s.len() as int)) {
                Ok(rest) => Ok(acc + rest),
                Err(e) => Err::<Seq<ElementView>, TreeError>(e),
            },
        decreases nodes.len() - k,
    {
        let ghost t = s.subrange(k as int, s.len() as int);
        proof {
            assert(t[0] == s[k as int]);
            assert(t.subrange(1, t.len() as int) =~= s.subrange(k + 1, s.len() as int));
            assert(decreases_to!(nodes => nodes@));
            assert(decreases_to!(nodes@ => nodes@[k as int]));
        }
        let ghost before = element_views(result@);
        match visit(&nodes[k], result) {
            Err(e) => {
                return Err(e);
            },
            Ok(()) => {
                proof {
                    let first = visit_spec(s[k as int])->Ok_0;
                    assert(element_views(result@) == before + first);
                    assert(element_views(result@) =~= start + (acc + first));
                    let old_acc = acc;
                    acc = acc + first;
                    match visit_list(s.subrange(k + 1, s.len() as int)) {
                        Ok(rest) => {
                            assert(acc + rest =~= old_acc + (first + rest));
                        },
                        Err(e) => {},
                    }
                }
            },
        }
        k += 1;
    }
    proof {
        assert(s.subrange(k as int, s.len() as int) =~= Seq::<Json>::empty());
        assert(acc + Seq::<ElementView>::empty() =~= acc);
    }
    Ok(())
}

/// The elements of a decoded accessibility hierarchy that carry a label,
/// an identifier or a value, depth first, without frames.
pub fn elements_of_tree(roots: &Json) -> (r: Result<Vec<Element>, TreeError>)
    ensures
        match parse_elements_spec(*roots) {
            Ok(es) => r matches Ok(v) && element_views(v@) == es,
            Err(e) => r matches Err(x) && x == e,
        },
{
    match roots {
        Json::Array(nodes) => {
            let mut elements: Vec<Element> = Vec::new();
            assert(element_views(elements@) =~= Seq::<ElementView>::empty());
            match visit_all(nodes, &mut elements) {
                Ok(()) => {
                    assert(element_views(elements@) =~= Seq::<ElementView>::empty() + visit_list(nodes@)->Ok_0);
                    Ok(elements)
                },
                Err(e) => Err(e),
            }
        },
        _ => Err(TreeError::RootsNotArray),
    }
}

#[verifier::external_type_specification]
#[verifier::external_body]
pub struct ExSerdeJsonValue(serde_json::Value);

/// The JSON value that `serde_json::from_str` decodes from a text, in the
/// library's tree form (object entries in the order `serde_json` keeps
/// them), or `None` when the text is not JSON; it depends on the text alone.
pub uninterp spec fn json_of(text: Seq<char>) -> Option<Json>;

/// Turns a `serde_json::Value` into the library's tree form, variant for
/// variant: a number as the text `serde_json` prints for it, an object as
/// its entries in the order `serde_json` keeps them. Nothing is stated of
/// it alone; `parse_json` states what the two together give.
#[verifier::external_body]
fn json_tree(value: &serde_json::Value) -> Json {
    match value {
        serde_json::Value::Null => Json::Null,
        serde_json::Value::Bool(b) => Json::Bool(*b),
        serde_json::Value::Number(n) => Json::Number(n.to_string()),
        serde_json::Value::String(t) => Json::Str(t.clone()),
        serde_json::Value::Array(items) => Json::Array(items.iter().map(json_tree).collect()),
        serde_json::Value::Object(entries) => Json::Object(
            entries.iter().map(|(k, v)| (k.clone(), json_tree(v))).collect(),
        ),
    }
}

/// `serde_json::from_str::<serde_json::Value>(text)`, in the library's tree
/// form: `None` when the text is not JSON. What it decodes is named
/// `json_of`; the JSON grammar itself is not stated.
#[verifier::external_body]
pub(crate) fn parse_json(text: &str) -> (r: Option<Json>)
    ensures
        r == json_of(text@),
{
    match serde_json::from_str::<serde_json::Value>(text) {
        Ok(value) => Some(json_tree(&value)),
        Err(_) => None,
    }
}

/// What `parse_elements` gives for a text: the elements of the hierarchy
/// the text decodes to, or `InvalidJson` when it is not JSON.
pub open spec fn parse_elements_text_spec(text: Seq<char>) -> Result<Seq<ElementView>, TreeError> {
    match json_of(text) {
        None => Err(TreeError::InvalidJson),
        Some(j) => parse_elements_spec(j),
    }
}

/// The elements of the accessibility hierarchy in the JSON `text` that
/// carry a label, an identifier or a value, depth first, without frames.
pub fn parse_elements(text: &str) -> (r: Result<Vec<Element>, TreeError>)
    ensures
        match parse_elements_text_spec(text@) {
            Ok(es) => r matches Ok(v) && element_views(v@) == es,
            Err(e) => r matches Err(x) && x == e,
        },
{
    match parse_json(text) {
        None => Err(TreeError::InvalidJson),
        Some(roots) => elements_of_tree(&roots),
    }
}

/// The entry `key` of an object (`value.get(key)`), if `value` is an
/// object that has it.
pub open spec fn json_get(value: Json, key: Seq<char>) -> Option<Json> {
    match value {
        Json::Object(entries) => match entry_index(entries@, key) {
            Some(i) => Some(entries@[i].1),
            None => None,
        },
        _ => None,
    }
}

/// The entry `key` of an object, if `value` is an object that has it.
pub fn json_field<'a>(value: &'a Json, key: &str) -> (r: Option<&'a Json>)
    ensures
        match json_get(*value, key@) {
            Some(x) => r matches Some(y) && *y == x,
            None => r is None,
        },
{
    match value {
        Json::Object(entries) => match find_entry(entries, key) {
            Some(i) => Some(&entries[i].1),
            None => None,
        },
        _ => None,
    }
}

/// Whether an element object carries a label, an identifier or a value
/// under any of the keys the hierarchy uses for them.
pub open spec fn carries_text(entries: Seq<(String, Json)>) -> bool {
    ||| entry_scalar(entries, "AXLabel"@) is Some
    ||| entry_scalar(entries, "label"@) is Some
    ||| entry_scalar(entries, "AXUniqueId"@) is Some
    ||| entry_scalar(entries, "AXIdentifier"@) is Some
    ||| entry_scalar(entries, "identifier"@) is Some
    ||| entry_scalar(entries, "AXValue"@) is Some
    ||| entry_scalar(entries, "value"@) is Some
}

/// How many object nodes of a hierarchy carry text: the node itself, if it
/// does, and those below it in its `children` array.
pub open spec fn text_nodes(node: Json) -> nat
    decreases node,
{
    match node {
        Json::Object(entries) => {
            let own: nat = if carries_text(entries@) {
                1
            } else {
                0
            };
            match entry_index(entries@, "children"@) {
                Some(i) => {
                    if 0 <= i < entries@.len() {
                        match entries@[i].1 {
                            Json::Array(children) => {
                                proof {
                                    assert(decreases_to!(node => entries));
                                    assert(decreases_to!(entries => entries@));
                                    assert(decreases_to!(entries@ => entries@[i]));
                                    assert(decreases_to!(entries@[i] => entries@[i].1));
                                    assert(decreases_to!(entries@[i].1 => children));
                                    assert(decreases_to!(children => children@));
                                }
                                own + text_nodes_list(children@)
                            },
                            _ => own,
                        }
                    } else {
                        own
                    }
                },
                None => own,
            }
        },
        _ => 0,
    }
}

/// How many object nodes of a list of hierarchies carry text.
pub open spec fn text_nodes_list(nodes: Seq<Json>) -> nat
    decreases nodes,
{
    if nodes.len() == 0 {
        0
    } else {
        proof {
            assert(decreases_to!(nodes => nodes[0]));
            assert(decreases_to!(nodes => nodes.subrange(1, nodes.len() as int)));
        }
        text_nodes(nodes[0]) + text_nodes_list(nodes.subrange(1, nodes.len() as int))
    }
}

/// Every object node that carries a label, an identifier or a value yields
/// one element, whether or not it has children: a hierarchy that parses
/// gives exactly as many elements as it has such nodes.
pub proof fn lemma_one_element_per_text_node(node: Json)
    ensures
        visit_spec(node) matches Ok(es) ==> es.len() == text_nodes(node),
    decreases node,
{
    match node {
        Json::Object(entries) => {
            assert(node_elements(entries@).len() == (if carries_text(entries@) {
                1nat
            } else {
                0nat
            }));
            match entry_index(entries@, "children"@) {
                Some(i) => {
                    if 0 <= i < entries@.len() {
                        match entries@[i].1 {
                            Json::Array(children) => {
                                assert(decreases_to!(node => entries));
                                assert(decreases_to!(entries => entries@));
                                assert(decreases_to!(entries@ => entries@[i]));
                                assert(decreases_to!(entries@[i] => entries@[i].1));
                                assert(decreases_to!(entries@[i].1 => children));
                                assert(decreases_to!(children => children@));
                                lemma_one_element_per_text_node_list(children@);
                            },
                            _ => {},
                        }
                    }
                },
                None => {},
            }
        },
        _ => {},
    }
}

/// The list form of `lemma_one_element_per_text_node`.
pub proof fn lemma_one_element_per_text_node_list(nodes: Seq<Json>)
    ensures
        visit_list(nodes) matches Ok(es) ==> es.len() == text_nodes_list(nodes),
    decreases nodes,
{
    if nodes.len() > 0 {
        assert(decreases_to!(nodes => nodes[0]));
        assert(decreases_to!(nodes => nodes.subrange(1, nodes.len() as int)));
        lemma_one_element_per_text_node(nodes[0]);
        lemma_one_element_per_text_node_list(nodes.subrange(1, nodes.len() as int));
    }
}

/// Elements come in depth-first pre-order: a node that carries text yields
/// its own element first, holding the node's own label, identifier and
/// value, before any element of its children.
pub proof fn lemma_node_element_first(entries: Vec<(String, Json)>)
    requires
        carries_text(entries@),
    ensures
        visit_spec(Json::Object(entries)) matches Ok(es) ==> {
            &&& es.len() >= 1
            &&& es[0].label == first_of(
                entry_scalar(entries@, "AXLabel"@),
                entry_scalar(entries@, "label"@),
            )
            &&& es[0].identifier == first_of(
                entry_scalar(entries@, "AXUniqueId"@),
                first_of(
                    entry_scalar(entries@, "AXIdentifier"@),
                    entry_scalar(entries@, "identifier"@),
                ),
            )
            &&& es[0].value == first_of(
                entry_scalar(entries@, "AXValue"@),
                entry_scalar(entries@, "value"@),
            )
            &&& es[0].role == match first_of(
                entry_scalar(entries@, "type"@),
                entry_scalar(entries@, "role"@),
            ) {
                Some(r) => r,
                None => "Unknown"@,
            }
            &&& es[0].reference is None && es[0].index is None && es[0].frame is None
        },
{
}

/// A selector picks an element exactly when every field it gives equals
/// the element's: the identifier, the label and the role.
pub proof fn lemma_selector_fields_agree(sel: Selector, e: ElementView)
    ensures
        sel.matches_spec(e) <==> {
            &&& sel.identifier matches Some(id) ==> e.identifier == Some(id@)
            &&& sel.label matches Some(l) ==> e.label == Some(l@)
            &&& sel.role matches Some(r) ==> e.role == r@
        },
{
}

/// A selector that gives only an identifier picks exactly the elements
/// with that identifier.
pub proof fn lemma_identifier_selector(sel: Selector, e: ElementView)
    requires
        sel.identifier is Some,
        sel.label is None,
        sel.role is None,
    ensures
        sel.matches_spec(e) <==> e.identifier == Some(sel.identifier->Some_0@),
{
}

/// When exactly one element of a screen holds an identifier, a selector by
/// that identifier alone picks exactly one element, so a tap by it is not
/// refused as ambiguous.
pub proof fn lemma_unique_identifier_picks_one(sel: Selector, es: Seq<ElementView>, j: int)
    requires
        sel.identifier is Some,
        sel.label is None,
        sel.role is None,
        0 <= j < es.len(),
        es[j].identifier == Some(sel.identifier->Some_0@),
        forall|k: int|
            0 <= k < es.len() && k != j ==> (#[trigger] es[k]).identifier != Some(
                sel.identifier->Some_0@,
            ),
    ensures
        match_count(sel, es) == 1,
    decreases es.len(),
{
    let last = es.len() - 1;
    lemma_identifier_selector(sel, es.last());
    if j < last {
        assert forall|k: int|
            0 <= k < es.drop_last().len() && k != j implies (#[trigger] es.drop_last()[k]).identifier
            != Some(sel.identifier->Some_0@) by {
            assert(es.drop_last()[k] == es[k]);
        }
        lemma_unique_identifier_picks_one(sel, es.drop_last(), j);
        assert(es.last() == es[last]);
    } else {
        lemma_no_identifier_match(sel, es.drop_last());
    }
}

proof fn lemma_no_identifier_match(sel: Selector, es: Seq<ElementView>)
    requires
        sel.identifier is Some,
        sel.label is None,
        sel.role is None,
        forall|k: int|
            0 <= k < es.len() ==> (#[trigger] es[k]).identifier != Some(sel.identifier->Some_0@),
    ensures
        match_count(sel, es) == 0,
    decreases es.len(),
{
    if es.len() > 0 {
        lemma_identifier_selector(sel, es.last());
        assert(es.last() == es[es.len() - 1]);
        assert forall|k: int|
            0 <= k < es.drop_last().len() implies (#[trigger] es.drop_last()[k]).identifier
            != Some(sel.identifier->Some_0@) by {
            assert(es.drop_last()[k] == es[k]);
        }
        lemma_no_identifier_match(sel, es.drop_last());
    }
}

/// Two elements are equal exactly when they agree in every field, the
/// frames compared as `f64`s: role, reference, identifier, label, value
/// and index must all be the same.
pub proof fn lemma_element_eq_is_fieldwise(a: ElementView, b: ElementView)
    ensures
        element_eq(a, b) <==> ((ElementView { frame: None, ..a }) == (ElementView { frame: None, ..b })
            && frame_eq(a.frame, b.frame)),
{
    if (ElementView { frame: None, ..a }) == (ElementView { frame: None, ..b }) {
        assert(a.role == b.role && a.value == b.value && a.label == b.label);
    }
}

} // verus!

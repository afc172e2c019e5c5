//! What the accessibility walk computes from the tree it collected: the
//! flattened element list, the tree hash that detects changes, and role
//! names.
use crate::ui::{clone_opt, element_views, opt_view, Element, ElementView, FrameBits};
use vstd::prelude::*;
use vstd::utf8::encode_utf8;

verus! {

/// One node of the accessibility tree as the walk collects it.
#[derive(Debug)]
pub struct AptNode {
    pub role: String,
    pub identifier: Option<String>,
    pub label: Option<String>,
    pub value: Option<String>,
    pub frame: Option<FrameBits>,
    pub children: Vec<AptNode>,
}

/// The element a node becomes when it is the `index`-th one listed.
pub open spec fn node_element(n: AptNode, index: nat) -> ElementView {
    ElementView {
        role: n.role@,
        reference: None,
        identifier: opt_view(n.identifier),
        label: opt_view(n.label),
        value: opt_view(n.value),
        index: Some(index as u32),
        frame: n.frame,
    }
}

/// The nodes of a forest in depth-first order, each numbered by its
/// position, the first one at `base`.
pub open spec fn flatten_spec(nodes: Seq<AptNode>, base: nat) -> Seq<ElementView>
    decreases nodes,
{
    if nodes.len() == 0 {
        seq![]
    } else {
        proof {
            assert(decreases_to!(nodes => nodes[0]));
            assert(decreases_to!(nodes[0] => nodes[0].children));
            assert(decreases_to!(nodes[0].children => nodes[0].children@));
            assert(decreases_to!(nodes => nodes.subrange(1, nodes.len() as int)));
        }
        let kids = flatten_spec(nodes[0].children@, base + 1);
        seq![node_element(nodes[0], base)] + kids + flatten_spec(
            nodes.subrange(1, nodes.len() as int),
            base + 1 + kids.len(),
        )
    }
}

fn visit(nodes: &Vec<AptNode>, elements: &mut Vec<Element>)
    ensures
        element_views(final(elements)@) == element_views(old(elements)@) + flatten_spec(
            nodes@,
            old(elements)@.len(),
        ),
    decreases nodes,
{
    let ghost s = nodes@;
    let ghost start = element_views(elements@);
    let ghost base = elements@.len();
    let ghost mut acc: Seq<ElementView> = seq![];
    let mut k: usize = 0;
    proof {
        assert(s.subrange(0, s.len() as int) =~= s);
        assert(start + acc =~= start);
    }
    while k < nodes.len()
        invariant
            k <= nodes.len(),
            s == nodes@,
            element_views(elements@) == start + acc,
            elements@.len() == base + acc.len(),
            flatten_spec(s, base) == acc + flatten_spec(
                s.subrange(k as int, s.len() as int),
                base + acc.len(),
            ),
        decreases nodes.len() - k,
    {
        let ghost t = s.subrange(k as int, s.len() as int);
        let ghost at = elements@.len();
        proof {
            assert(t[0] == s[k as int]);
            assert(t.subrange(1, t.len() as int) =~= s.subrange(k + 1, s.len() as int));
            assert(decreases_to!(nodes => nodes@));
            assert(decreases_to!(nodes@ => nodes@[k as int]));
            assert(decreases_to!(nodes@[k as int] => nodes@[k as int].children));
        }
        let node = &nodes[k];
        let index = elements.len() as u32;
        let ghost before = element_views(elements@);
        elements.push(
            Element {
                role: node.role.clone(),
                reference: None,
                identifier: clone_opt(&node.identifier),
                label: clone_opt(&node.label),
                value: clone_opt(&node.value),
                index: Some(index),
                frame: node.frame,
            },
        );
        proof {
            assert(element_views(elements@) =~= before.push(node_element(*node, at)));
        }
        let ghost mid = element_views(elements@);
        visit(&node.children, elements);
        proof {
            let kids = flatten_spec(node.children@, at + 1);
            let old_acc = acc;
            acc = acc + seq![node_element(*node, at)] + kids;
            assert(element_views(elements@) =~= start + acc);
            assert(flatten_spec(t, at) == seq![node_element(*node, at)] + kids + flatten_spec(
                s.subrange(k + 1, s.len() as int),
                at + 1 + kids.len(),
            ));
            assert(old_acc + (seq![node_element(*node, at)] + kids + flatten_spec(
                s.subrange(k + 1, s.len() as int),
                at + 1 + kids.len(),
            )) =~= acc + flatten_spec(s.subrange(k + 1, s.len() as int), base + acc.len()));
        }
        k += 1;
    }
    proof {
        assert(s.subrange(k as int, s.len() as int) =~= Seq::<AptNode>::empty());
        assert(acc + Seq::<ElementView>::empty() =~= acc);
    }
}

/// The elements of an accessibility forest in depth-first order, numbered
/// by position, frames kept.
pub fn flatten_nodes(nodes: &Vec<AptNode>) -> (r: Vec<Element>)
    ensures
        element_views(r@) == flatten_spec(nodes@, 0),
{
    let mut elements: Vec<Element> = Vec::new();
    visit(nodes, &mut elements);
    assert(element_views(elements@) =~= Seq::<ElementView>::empty() + flatten_spec(nodes@, 0));
    elements
}

/// One step of the string hash: `h * 33 + b`, modulo 2^64.
pub open spec fn mix_byte(h: u64, b: u8) -> u64 {
    ((h as nat * 33 + b as nat) % 0x1_0000_0000_0000_0000) as u64
}

/// The hash after mixing in the bytes of `bs` in order.
pub open spec fn mix_bytes(h: u64, bs: Seq<u8>) -> u64
    decreases bs.len(),
{
    if bs.len() == 0 {
        h
    } else {
        mix_byte(mix_bytes(h, bs.drop_last()), bs.last())
    }
}

/// Mixes an optional text into the hash: its UTF-8 bytes when it is there
/// and not empty, then a field separator.
pub open spec fn hash_mix_spec(h: u64, value: Option<Seq<char>>) -> u64 {
    let h1 = match value {
        Some(s) => if s.len() > 0 {
            mix_bytes(h, encode_utf8(s))
        } else {
            h
        },
        None => h,
    };
    mix_byte(h1, 0x1f)
}

/// The hash of elements whose role, identifier, label and value are mixed
/// in, element after element, from `h`.
pub open spec fn elements_hash(h: u64, es: Seq<ElementView>) -> u64
    decreases es.len(),
{
    if es.len() == 0 {
        h
    } else {
        let e = es.last();
        let h0 = elements_hash(h, es.drop_last());
        hash_mix_spec(
            hash_mix_spec(hash_mix_spec(hash_mix_spec(h0, Some(e.role)), e.identifier), e.label),
            e.value,
        )
    }
}

proof fn lemma_mix_byte(h: u64, b: u8)
    ensures
        vstd::wrapping::u64_specs::wrapping_add(
            vstd::wrapping::u64_specs::wrapping_mul(h, 33),
            b as u64,
        ) == mix_byte(h, b),
{
    let m: int = 0x1_0000_0000_0000_0000;
    let a = (h as nat * 33) % (m as nat);
    vstd::arithmetic::div_mod::lemma_add_mod_noop(h as int * 33, b as int, m);
    vstd::arithmetic::div_mod::lemma_small_mod(b as nat, m as nat);
    if a + b < m {
        vstd::arithmetic::div_mod::lemma_small_mod((a + b) as nat, m as nat);
    } else {
        vstd::arithmetic::div_mod::lemma_fundamental_div_mod_converse(a + b, m, 1, a + b - m);
    }
}

fn hash_mix(hash: u64, value: Option<&str>) -> (r: u64)
    ensures
        r == hash_mix_spec(
            hash,
            match value {
                Some(s) => Some(s@),
                None => None,
            },
        ),
{
    let mut h = hash;
    if let Some(s) = value {
        let bytes = s.as_bytes();
        assert(bytes@ == encode_utf8(s@));
        if bytes.len() > 0 {
            let mut i: usize = 0;
            while i < bytes.len()
                invariant
                    i <= bytes@.len(),
                    h == mix_bytes(hash, bytes@.take(i as int)),
                decreases bytes@.len() - i,
            {
                proof {
                    lemma_mix_byte(h, bytes@[i as int]);
                    assert(bytes@.take(i + 1).drop_last() =~= bytes@.take(i as int));
                }
                h = h.wrapping_mul(33).wrapping_add(bytes[i] as u64);
                i += 1;
            }
            assert(bytes@.take(bytes@.len() as int) =~= bytes@);
        } else {
            proof {
                vstd::utf8::encode_utf8_decode_utf8(s@);
            }
            assert(s@.len() == 0);
        }
    }
    proof {
        lemma_mix_byte(h, 0x1f);
    }
    h.wrapping_mul(33).wrapping_add(0x1f)
}

/// The lowercase hexadecimal digit for `d < 16`.
pub open spec fn hex_digit(d: nat) -> char {
    if d < 10 {
        (('0' as nat) + d) as char
    } else {
        (('a' as nat) + d - 10) as char
    }
}

/// The last `n` hexadecimal digits of `h`, zero-padded.
pub open spec fn hex_digits(h: nat, n: nat) -> Seq<char>
    decreases n,
{
    if n == 0 {
        seq![]
    } else {
        hex_digits(h / 16, (n - 1) as nat).push(hex_digit(h % 16))
    }
}

fn hex_char(d: u64) -> (c: char)
    requires
        d < 16,
    ensures
        c == hex_digit(d as nat),
{
    if d == 0 { '0' }
    else if d == 1 { '1' }
    else if d == 2 { '2' }
    else if d == 3 { '3' }
    else if d == 4 { '4' }
    else if d == 5 { '5' }
    else if d == 6 { '6' }
    else if d == 7 { '7' }
    else if d == 8 { '8' }
    else if d == 9 { '9' }
    else if d == 10 { 'a' }
    else if d == 11 { 'b' }
    else if d == 12 { 'c' }
    else if d == 13 { 'd' }
    else if d == 14 { 'e' }
    else { 'f' }
}

fn push_hex(s: &mut String, h: u64, n: usize)
    ensures
        final(s)@ == old(s)@ + hex_digits(h as nat, n as nat),
    decreases n,
{
    if n == 0 {
        assert(old(s)@ + hex_digits(h as nat, 0) =~= old(s)@);
    } else {
        push_hex(s, h / 16, n - 1);
        crate::text::push_char(s, hex_char(h % 16));
        assert(final(s)@ =~= old(s)@ + hex_digits(h as nat, n as nat));
    }
}

/// `hex_digits(h, n)` has `n` digits, each a lowercase hexadecimal digit.
pub proof fn lemma_hex_digits(h: nat, n: nat)
    ensures
        hex_digits(h, n).len() == n,
        forall|i: int|
            0 <= i < n ==> {
                let c = #[trigger] hex_digits(h, n)[i];
                ('0' <= c <= '9') || ('a' <= c <= 'f')
            },
    decreases n,
{
    if n > 0 {
        lemma_hex_digits(h / 16, (n - 1) as nat);
        let d = h % 16;
        assert(hex_digits(h, n)[n - 1] == hex_digit(d));
        assert forall|i: int| 0 <= i < n - 1 implies hex_digits(h, n)[i] == hex_digits(
            h / 16,
            (n - 1) as nat,
        )[i] by {}
    }
}

/// The 16 zero-padded lowercase hexadecimal digits of `h`.
pub fn hex16(h: u64) -> (r: String)
    ensures
        r@ == hex_digits(h as nat, 16),
        r@.len() == 16,
{
    proof {
        lemma_hex_digits(h as nat, 16);
    }
    let mut r = String::new();
    push_hex(&mut r, h, 16);
    assert(r@ =~= hex_digits(h as nat, 16));
    r
}

fn opt_str(o: &Option<String>) -> (r: Option<&str>)
    ensures
        match r {
            Some(t) => opt_view(*o) == Some(t@),
            None => o is None,
        },
{
    match o {
        Some(s) => Some(s.as_str()),
        None => None,
    }
}

/// The hash of an element list: role, identifier, label and value of each
/// element mixed into `5381`, as 16 hexadecimal digits. Frames, indexes and
/// references do not count.
pub fn tree_hash(elements: &Vec<Element>) -> (r: String)
    ensures
        r@ == hex_digits(elements_hash(5381, element_views(elements@)) as nat, 16),
        r@.len() == 16,
{
    let mut hash: u64 = 5381;
    let mut i: usize = 0;
    while i < elements.len()
        invariant
            i <= elements.len(),
            hash == elements_hash(5381, element_views(elements@).take(i as int)),
        decreases elements.len() - i,
    {
        let e = &elements[i];
        proof {
            let t = element_views(elements@).take(i + 1);
            assert(t.drop_last() =~= element_views(elements@).take(i as int));
            assert(t.last() == e@);
        }
        hash = hash_mix(hash, Some(e.role.as_str()));
        hash = hash_mix(hash, opt_str(&e.identifier));
        hash = hash_mix(hash, opt_str(&e.label));
        hash = hash_mix(hash, opt_str(&e.value));
        i += 1;
    }
    assert(element_views(elements@).take(elements.len() as int) =~= element_views(elements@));
    hex16(hash)
}

/// Element lists that agree in the role, identifier, label and value of
/// each element hash alike: frames, indexes and references do not count.
pub proof fn lemma_hash_ignores_layout(a: Seq<ElementView>, b: Seq<ElementView>, h: u64)
    requires
        a.len() == b.len(),
        forall|i: int|
            0 <= i < a.len() ==> {
                &&& (#[trigger] a[i]).role == b[i].role
                &&& a[i].identifier == b[i].identifier
                &&& a[i].label == b[i].label
                &&& a[i].value == b[i].value
            },
    ensures
        elements_hash(h, a) == elements_hash(h, b),
    decreases a.len(),
{
    if a.len() > 0 {
        lemma_hash_ignores_layout(a.drop_last(), b.drop_last(), h);
        assert(a.last() == a[a.len() - 1]);
    }
}

/// The role name shown for an element: `Unknown` when there is none, and
/// without the `AX` prefix when an uppercase letter follows it.
pub open spec fn normalize_role_spec(role: Option<Seq<char>>) -> Seq<char> {
    let r = match role {
        Some(s) => if s.len() > 0 {
            s
        } else {
            "Unknown"@
        },
        None => "Unknown"@,
    };
    if r.len() > 2 && r[0] == 'A' && r[1] == 'X' && 'A' <= r[2] <= 'Z' {
        r.skip(2)
    } else {
        r
    }
}

/// Normalizes an accessibility role name.
pub fn normalize_role(role: Option<String>) -> (r: String)
    ensures
        r@ == normalize_role_spec(opt_view(role)),
{
    let base = match role {
        Some(s) => if crate::text::chars_of(s.as_str()).len() > 0 {
            s
        } else {
            String::from_str("Unknown")
        },
        None => String::from_str("Unknown"),
    };
    proof {
        reveal_strlit("Unknown");
    }
    let v = crate::text::chars_of(base.as_str());
    if v.len() > 2 && v[0] == 'A' && v[1] == 'X' && 'A' <= v[2] && v[2] <= 'Z' {
        let r = crate::text::string_of(&v, 2, v.len());
        assert(v@.subrange(2, v@.len() as int) =~= v@.skip(2));
        r
    } else {
        base
    }
}

} // verus!

//! Vertex layout model: attributes, vertex formats and the canonical order
//! in which formats are sorted.
use std::cmp::Ordering;
use vstd::prelude::*;

verus! {

/// One named field of a vertex.
///
/// `name` identifies the shader semantic, `index` the slot of an array or
/// matrix attribute, `format` is the type tag of the element and `offset` its
/// byte offset inside one vertex.
#[derive(Clone, Copy, Debug, Eq, Ord, Hash)]
pub struct Attribute {
    pub offset: u32,
    pub name: u32,
    pub index: u8,
    pub format: u32,
}

impl Attribute {
    /// Strict order of attributes: by offset, then name, then index, then type tag.
    pub open spec fn before(self, other: Attribute) -> bool {
        self.offset < other.offset || (self.offset == other.offset && (self.name < other.name || (
        self.name == other.name && (self.index < other.index || (self.index == other.index
            && self.format < other.format)))))
    }

    /// Whether `self` sorts strictly before `other`.
    pub fn is_before(&self, other: &Attribute) -> (r: bool)
        ensures
            r == self.before(*other),
    {
        self.offset < other.offset || (self.offset == other.offset && (self.name < other.name || (
        self.name == other.name && (self.index < other.index || (self.index == other.index
            && self.format < other.format)))))
    }

    /// Whether the two attributes have the same offset, name, index and type tag.
    pub fn same(&self, other: &Attribute) -> (r: bool)
        ensures
            r == (*self == *other),
    {
        self.offset == other.offset && self.name == other.name && self.index == other.index
            && self.format == other.format
    }
}

impl PartialEq for Attribute {
    fn eq(&self, other: &Attribute) -> (r: bool) {
        self.same(other)
    }
}

impl vstd::std_specs::cmp::PartialEqSpecImpl for Attribute {
    open spec fn obeys_eq_spec() -> bool {
        true
    }

    open spec fn eq_spec(&self, other: &Attribute) -> bool {
        *self == *other
    }
}

impl PartialOrd for Attribute {
    fn partial_cmp(&self, other: &Attribute) -> (r: Option<Ordering>) {
        if self.is_before(other) {
            Some(Ordering::Less)
        } else if self.same(other) {
            Some(Ordering::Equal)
        } else {
            Some(Ordering::Greater)
        }
    }
}

impl vstd::std_specs::cmp::PartialOrdSpecImpl for Attribute {
    open spec fn obeys_partial_cmp_spec() -> bool {
        true
    }

    open spec fn partial_cmp_spec(&self, other: &Attribute) -> Option<Ordering> {
        if self.before(*other) {
            Some(Ordering::Less)
        } else if *self == *other {
            Some(Ordering::Equal)
        } else {
            Some(Ordering::Greater)
        }
    }
}

/// The first `k` attributes of `a` and `b` are the same.
pub open spec fn agree_until(a: Seq<Attribute>, b: Seq<Attribute>, k: int) -> bool {
    &&& 0 <= k <= a.len()
    &&& k <= b.len()
    &&& forall|i: int| 0 <= i < k ==> a[i] == b[i]
}

/// Strict lexicographic order of attribute lists: at the first position where
/// the lists differ, `a` has ended or holds the smaller attribute.
pub open spec fn attributes_before(a: Seq<Attribute>, b: Seq<Attribute>) -> bool {
    exists|k: int| #[trigger]
        agree_until(a, b, k) && k < b.len() && (k == a.len() || a[k].before(b[k]))
}

/// What a vertex format is: the byte size of one vertex and its attributes.
#[verifier::ext_equal]
pub struct FormatSpec {
    pub stride: u32,
    pub attributes: Seq<Attribute>,
}

impl FormatSpec {
    /// The canonical strict order of formats: by stride, then by the
    /// attribute lists in lexicographic order.
    pub open spec fn before(self, other: FormatSpec) -> bool {
        self.stride < other.stride || (self.stride == other.stride && attributes_before(
            self.attributes,
            other.attributes,
        ))
    }

    /// `self` does not sort after `other`.
    pub open spec fn at_most(self, other: FormatSpec) -> bool {
        !other.before(self)
    }
}

/// A list of formats is in canonical order.
pub open spec fn formats_sorted(s: Seq<FormatSpec>) -> bool {
    forall|i: int, j: int| 0 <= i < j < s.len() ==> s[i].at_most(s[j])
}

/// No attribute list sorts before itself.
pub proof fn lemma_attributes_irreflexive(a: Seq<Attribute>)
    ensures
        !attributes_before(a, a),
{
}

/// The order of attribute lists is transitive.
pub proof fn lemma_attributes_transitive(a: Seq<Attribute>, b: Seq<Attribute>, c: Seq<Attribute>)
    requires
        attributes_before(a, b),
        attributes_before(b, c),
    ensures
        attributes_before(a, c),
{
    let k1 = choose|k: int| #[trigger]
        agree_until(a, b, k) && k < b.len() && (k == a.len() || a[k].before(b[k]));
    let k2 = choose|k: int| #[trigger]
        agree_until(b, c, k) && k < c.len() && (k == b.len() || b[k].before(c[k]));
    let k = if k1 <= k2 {
        k1
    } else {
        k2
    };
    assert(agree_until(a, c, k));
}

proof fn lemma_attributes_total_from(a: Seq<Attribute>, b: Seq<Attribute>, i: int)
    requires
        agree_until(a, b, i),
    ensures
        a =~= b || attributes_before(a, b) || attributes_before(b, a),
    decreases a.len() - i,
{
    if i == a.len() {
        if i < b.len() {
            assert(agree_until(a, b, i));
        }
    } else if i == b.len() {
        assert(agree_until(b, a, i));
    } else if a[i] == b[i] {
        assert(agree_until(a, b, i + 1));
        lemma_attributes_total_from(a, b, i + 1);
    } else if a[i].before(b[i]) {
        assert(agree_until(a, b, i));
    } else {
        assert(b[i].before(a[i]));
        assert(agree_until(b, a, i));
    }
}

/// Two attribute lists are equal, or one sorts before the other.
pub proof fn lemma_attributes_total(a: Seq<Attribute>, b: Seq<Attribute>)
    ensures
        a =~= b || attributes_before(a, b) || attributes_before(b, a),
{
    assert(agree_until(a, b, 0));
    lemma_attributes_total_from(a, b, 0);
}

/// No format sorts before itself.
pub proof fn lemma_format_irreflexive(a: FormatSpec)
    ensures
        !a.before(a),
{
    lemma_attributes_irreflexive(a.attributes);
}

/// The canonical order is transitive.
pub proof fn lemma_format_transitive(a: FormatSpec, b: FormatSpec, c: FormatSpec)
    requires
        a.before(b),
        b.before(c),
    ensures
        a.before(c),
{
    if a.stride == b.stride && b.stride == c.stride {
        lemma_attributes_transitive(a.attributes, b.attributes, c.attributes);
    }
}

/// The canonical order is total: two formats are equal, or one sorts before the other.
pub proof fn lemma_format_total(a: FormatSpec, b: FormatSpec)
    ensures
        a == b || a.before(b) || b.before(a),
{
    lemma_attributes_total(a.attributes, b.attributes);
    if a.stride == b.stride && a.attributes =~= b.attributes {
        assert(a =~= b);
    }
}

/// A format cannot sort both before and after another.
pub proof fn lemma_format_asymmetric(a: FormatSpec, b: FormatSpec)
    requires
        a.before(b),
    ensures
        !b.before(a),
{
    if b.before(a) {
        lemma_format_transitive(a, b, a);
        lemma_format_irreflexive(a);
    }
}

/// `at_most` is transitive.
pub proof fn lemma_at_most_transitive(a: FormatSpec, b: FormatSpec, c: FormatSpec)
    requires
        a.at_most(b),
        b.at_most(c),
    ensures
        a.at_most(c),
{
    if c.before(a) {
        lemma_format_total(a, b);
        lemma_format_total(b, c);
        if a == b {
        } else if b == c {
        } else {
            lemma_format_transitive(c, a, b);
        }
    }
}

/// Description of one kind of vertex data: the byte size of a vertex and the
/// attributes found in it.
#[derive(Debug, Eq, Ord, Hash)]
pub struct VertexFormat {
    /// Size of a single vertex in bytes.
    pub stride: u32,
    /// Attributes of the format.
    pub attributes: Vec<Attribute>,
}

impl View for VertexFormat {
    type V = FormatSpec;

    open spec fn view(&self) -> FormatSpec {
        FormatSpec { stride: self.stride, attributes: self.attributes@ }
    }
}

impl Clone for VertexFormat {
    fn clone(&self) -> (r: VertexFormat)
        ensures
            r@ == self@,
    {
        let mut attributes: Vec<Attribute> = Vec::new();
        let mut i: usize = 0;
        while i < self.attributes.len()
            invariant
                i <= self.attributes.len(),
                attributes@ =~= self.attributes@.take(i as int),
            decreases self.attributes.len() - i,
        {
            attributes.push(self.attributes[i]);
            i += 1;
        }
        VertexFormat { stride: self.stride, attributes }
    }
}

impl VertexFormat {
    /// Whether the two formats have the same stride and the same attributes.
    pub fn same(&self, other: &VertexFormat) -> (r: bool)
        ensures
            r == (self@ == other@),
    {
        if self.stride != other.stride || self.attributes.len() != other.attributes.len() {
            return false;
        }
        let mut i: usize = 0;
        while i < self.attributes.len()
            invariant
                i <= self.attributes.len(),
                self.attributes.len() == other.attributes.len(),
                forall|j: int| 0 <= j < i ==> self.attributes@[j] == other.attributes@[j],
            decreases self.attributes.len() - i,
        {
            if !self.attributes[i].same(&other.attributes[i]) {
                return false;
            }
            i += 1;
        }
        assert(self.attributes@ =~= other.attributes@);
        true
    }

    /// Whether `self` sorts strictly before `other` in the canonical order.
    pub fn is_before(&self, other: &VertexFormat) -> (r: bool)
        ensures
            r == self@.before(other@),
    {
        if self.stride != other.stride {
            return self.stride < other.stride;
        }
        let mut i: usize = 0;
        while i < self.attributes.len() && i < other.attributes.len()
            invariant
                self.stride == other.stride,
                agree_until(self.attributes@, other.attributes@, i as int),
            decreases self.attributes.len() - i,
        {
            let l = self.attributes[i];
            let r = other.attributes[i];
            if !l.same(&r) {
                proof {
                    lemma_first_difference(self.attributes@, other.attributes@, i as int);
                }
                return l.is_before(&r);
            }
            i += 1;
        }
        proof {
            lemma_first_difference(self.attributes@, other.attributes@, i as int);
        }
        i < other.attributes.len()
    }
}

/// Where two lists agree up to `k` and then differ or one ends, position
/// `k` alone decides their order.
proof fn lemma_first_difference(a: Seq<Attribute>, b: Seq<Attribute>, k: int)
    requires
        agree_until(a, b, k),
        k == a.len() || k == b.len() || a[k] != b[k],
    ensures
        attributes_before(a, b) == (k < b.len() && (k == a.len() || a[k].before(b[k]))),
{
    if attributes_before(a, b) {
        let w = choose|w: int| #[trigger]
            agree_until(a, b, w) && w < b.len() && (w == a.len() || a[w].before(b[w]));
        assert(w == k);
    }
}

impl PartialEq for VertexFormat {
    fn eq(&self, other: &VertexFormat) -> (r: bool) {
        self.same(other)
    }
}

impl vstd::std_specs::cmp::PartialEqSpecImpl for VertexFormat {
    open spec fn obeys_eq_spec() -> bool {
        true
    }

    open spec fn eq_spec(&self, other: &VertexFormat) -> bool {
        self@ == other@
    }
}

impl PartialOrd for VertexFormat {
    fn partial_cmp(&self, other: &VertexFormat) -> (r: Option<Ordering>) {
        if self.is_before(other) {
            Some(Ordering::Less)
        } else if self.same(other) {
            Some(Ordering::Equal)
        } else {
            Some(Ordering::Greater)
        }
    }
}

impl vstd::std_specs::cmp::PartialOrdSpecImpl for VertexFormat {
    open spec fn obeys_partial_cmp_spec() -> bool {
        true
    }

    open spec fn partial_cmp_spec(&self, other: &VertexFormat) -> Option<Ordering> {
        if self@.before(other@) {
            Some(Ordering::Less)
        } else if self@ == other@ {
            Some(Ordering::Equal)
        } else {
            Some(Ordering::Greater)
        }
    }
}

/// How two formats are ordered in the canonical order.
pub fn format_order(a: &VertexFormat, b: &VertexFormat) -> (o: Ordering)
    ensures
        o is Less <==> a@.before(b@),
        o is Equal <==> a@ == b@,
{
    if a.is_before(b) {
        Ordering::Less
    } else if a.same(b) {
        Ordering::Equal
    } else {
        Ordering::Greater
    }
}

/// The formats of a list of vertex formats, as specifications see them.
pub open spec fn format_views(formats: Seq<VertexFormat>) -> Seq<FormatSpec> {
    formats.map_values(|f: VertexFormat| f@)
}

} // verus!

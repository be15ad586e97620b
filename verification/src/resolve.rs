//! Matching requested vertex formats against the buffer layouts stored in a mesh.
use crate::vertex::{
    format_views, formats_sorted, lemma_at_most_transitive, lemma_format_asymmetric,
    lemma_format_total, Attribute, FormatSpec, VertexFormat,
};
use std::cmp::Ordering;
use vstd::prelude::*;
use vstd::std_specs::cmp::PartialOrdSpec;

verus! {

/// Where the data of one vertex format starts inside the vertex buffer of a mesh.
#[derive(Debug)]
pub struct VertexBufferLayout {
    pub offset: u64,
    pub format: VertexFormat,
}

/// What a `VertexBufferLayout` is.
#[verifier::ext_equal]
pub struct LayoutSpec {
    pub offset: u64,
    pub format: FormatSpec,
}

impl View for VertexBufferLayout {
    type V = LayoutSpec;

    open spec fn view(&self) -> LayoutSpec {
        LayoutSpec { offset: self.offset, format: self.format@ }
    }
}

/// The layouts of a list, as specifications see them.
pub open spec fn layout_views(layouts: Seq<VertexBufferLayout>) -> Seq<LayoutSpec> {
    layouts.map_values(|l: VertexBufferLayout| l@)
}

/// The formats of a list of layouts, in the order of the list.
pub open spec fn layout_formats(layouts: Seq<LayoutSpec>) -> Seq<FormatSpec> {
    layouts.map_values(|l: LayoutSpec| l.format)
}

/// The vertex buffers of a mesh hold no data for a requested vertex format.
#[derive(Debug)]
pub struct Incompatible {
    /// Format that was queried but was not found.
    pub not_found: VertexFormat,
    /// Formats that were available at query time.
    pub in_formats: Vec<VertexFormat>,
}

/// `pos` gives, for each requested attribute, a position in `stored` that
/// holds the same attribute, and these positions never move backwards.
pub open spec fn embeds(stored: Seq<Attribute>, requested: Seq<Attribute>, pos: Seq<int>) -> bool {
    &&& pos.len() == requested.len()
    &&& forall|k: int|
        0 <= k < pos.len() ==> 0 <= #[trigger] pos[k] < stored.len() && stored[pos[k]]
            == requested[k]
    &&& forall|j: int, k: int| 0 <= j <= k < pos.len() ==> pos[j] <= pos[k]
}

/// A buffer stored in format `stored` can serve a request for `requested`:
/// the strides are equal and the requested attributes occur in the stored
/// ones in non-decreasing position order.
pub open spec fn compatible(stored: FormatSpec, requested: FormatSpec) -> bool {
    &&& stored.stride == requested.stride
    &&& exists|pos: Seq<int>| embeds(stored.attributes, requested.attributes, pos)
}

proof fn lemma_embeds_prefix(
    stored: Seq<Attribute>,
    requested: Seq<Attribute>,
    pos: Seq<int>,
    k: int,
)
    requires
        embeds(stored, requested, pos),
        0 <= k <= requested.len(),
    ensures
        embeds(stored, requested.take(k), pos.take(k)),
{
    let p = pos.take(k);
    assert forall|i: int| 0 <= i < p.len() implies 0 <= #[trigger] p[i] < stored.len()
        && stored[p[i]] == requested.take(k)[i] by {
        assert(p[i] == pos[i]);
    }
    assert forall|i: int, j: int| 0 <= i <= j < p.len() implies p[i] <= p[j] by {
        assert(p[i] == pos[i] && p[j] == pos[j]);
    }
}

/// Every format can serve a request for itself.
pub proof fn lemma_self_compatible(f: FormatSpec)
    ensures
        compatible(f, f),
{
    let pos = Seq::new(f.attributes.len(), |i: int| i);
    assert(embeds(f.attributes, f.attributes, pos));
}

/// An attribute list is in canonical order of its attributes.
pub open spec fn attributes_sorted(attributes: Seq<Attribute>) -> bool {
    forall|i: int, j: int| 0 <= i < j < attributes.len() ==> !attributes[j].before(attributes[i])
}

/// Where both attribute lists are in canonical order, a stored format of
/// the same stride serves every request whose attributes it all holds.
pub proof fn lemma_sorted_subset_is_compatible(stored: FormatSpec, requested: FormatSpec)
    requires
        stored.stride == requested.stride,
        attributes_sorted(stored.attributes),
        attributes_sorted(requested.attributes),
        forall|k: int|
            0 <= k < requested.attributes.len() ==> stored.attributes.contains(
                #[trigger] requested.attributes[k],
            ),
    ensures
        compatible(stored, requested),
{
    let s = stored.attributes;
    let r = requested.attributes;
    let pos = Seq::new(r.len(), |k: int| choose|p: int| 0 <= p < s.len() && s[p] == r[k]);
    assert forall|k: int| 0 <= k < pos.len() implies 0 <= #[trigger] pos[k] < s.len() && s[pos[k]]
        == r[k] by {
        assert(s.contains(r[k]));
    }
    assert forall|j: int, k: int| 0 <= j <= k < pos.len() implies pos[j] <= pos[k] by {
        assert(s.contains(r[j]));
        assert(s.contains(r[k]));
        if pos[k] < pos[j] {
            assert(!s[pos[j]].before(s[pos[k]]));
            assert(j < k);
            assert(!r[k].before(r[j]));
            assert(r[j] == r[k]);
        }
    }
    assert(embeds(s, r, pos));
}

/// Whether vertex format `left` is compatible with `right`:
/// `left` must have the same stride and contain all attributes of `right`,
/// in the order in which one forward scan finds them.
pub fn is_compatible(left: &VertexFormat, right: &VertexFormat) -> (r: bool)
    ensures
        r == compatible(left@, right@),
{
    if left.stride != right.stride {
        return false;
    }
    let ghost stored = left.attributes@;
    let ghost requested = right.attributes@;
    let ghost mut pos: Seq<int> = Seq::empty();
    // Attributes are scanned from where the last one was found.
    let mut skip: usize = 0;
    let mut k: usize = 0;
    while k < right.attributes.len()
        invariant
            stored == left.attributes@,
            requested == right.attributes@,
            left.stride == right.stride,
            k <= requested.len(),
            skip <= stored.len(),
            embeds(stored, requested.take(k as int), pos),
            k > 0 ==> pos[k - 1] == skip,
            k == 0 ==> skip == 0,
            forall|q: Seq<int>| #[trigger]
                embeds(stored, requested.take(k as int), q) && k > 0 ==> q[k - 1] >= skip,
        decreases requested.len() - k,
    {
        let wanted = right.attributes[k];
        let mut p: usize = skip;
        while p < left.attributes.len() && !left.attributes[p].same(&wanted)
            invariant
                stored == left.attributes@,
                skip <= p <= stored.len(),
                forall|i: int| skip <= i < p ==> stored[i] != wanted,
            decreases stored.len() - p,
        {
            p += 1;
        }
        if p == left.attributes.len() {
            proof {
                assert forall|q: Seq<int>| embeds(stored, requested, q) implies false by {
                    lemma_embeds_prefix(stored, requested, q, k as int);
                    if k > 0 {
                        assert(q.take(k as int)[k - 1] == q[k - 1]);
                    }
                    assert(stored[q[k as int]] == requested[k as int]);
                }
            }
            return false;
        }
        proof {
            let grown = pos.push(p as int);
            let prefix = requested.take(k + 1);
            assert forall|i: int| 0 <= i < grown.len() implies 0 <= #[trigger] grown[i]
                < stored.len() && stored[grown[i]] == prefix[i] by {
                if i < k {
                    assert(grown[i] == pos[i]);
                    assert(requested.take(k as int)[i] == prefix[i]);
                }
            }
            assert forall|i: int, j: int| 0 <= i <= j < grown.len() implies grown[i]
                <= grown[j] by {
                if j < k {
                    assert(grown[i] == pos[i] && grown[j] == pos[j]);
                } else if i < k {
                    assert(grown[i] == pos[i]);
                    assert(pos[i] <= pos[k - 1]);
                }
            }
            assert forall|q: Seq<int>| #[trigger] embeds(stored, prefix, q) implies q[k as int]
                >= p by {
                lemma_embeds_prefix(stored, prefix, q, k as int);
                assert(prefix.take(k as int) =~= requested.take(k as int));
                if k > 0 {
                    assert(q.take(k as int)[k - 1] == q[k - 1]);
                }
                assert(stored[q[k as int]] == prefix[k as int]);
            }
            pos = grown;
        }
        skip = p;
        k += 1;
    }
    proof {
        assert(requested.take(k as int) =~= requested);
        assert(embeds(left@.attributes, right@.attributes, pos));
    }
    true
}

/// Index of the first layout at or after `from` that can serve `format`;
/// the number of layouts where there is none.
pub open spec fn first_compatible(layouts: Seq<LayoutSpec>, format: FormatSpec, from: int) -> int
    decreases layouts.len() - from,
{
    if from >= layouts.len() {
        layouts.len() as int
    } else if compatible(layouts[from].format, format) {
        from
    } else {
        first_compatible(layouts, format, from + 1)
    }
}

/// `first_compatible` is the one index that is compatible and has no
/// compatible layout between `from` and itself.
pub proof fn lemma_first_compatible_is(
    layouts: Seq<LayoutSpec>,
    format: FormatSpec,
    from: int,
    at: int,
)
    requires
        0 <= from <= at <= layouts.len(),
        forall|j: int| from <= j < at ==> !compatible(#[trigger] layouts[j].format, format),
        at == layouts.len() || compatible(layouts[at].format, format),
    ensures
        first_compatible(layouts, format, from) == at,
    decreases at - from,
{
    if from < at {
        assert(!compatible(layouts[from].format, format));
        lemma_first_compatible_is(layouts, format, from + 1, at);
    }
}

/// A compatible layout at or after `from` bounds `first_compatible`.
pub proof fn lemma_first_compatible_bound(
    layouts: Seq<LayoutSpec>,
    format: FormatSpec,
    from: int,
    at: int,
)
    requires
        0 <= from <= at < layouts.len(),
        compatible(layouts[at].format, format),
    ensures
        from <= first_compatible(layouts, format, from) <= at,
    decreases at - from,
{
    if from < at && !compatible(layouts[from].format, format) {
        lemma_first_compatible_bound(layouts, format, from + 1, at);
    }
}

/// Helper function to find the buffer with a compatible format: the index
/// of the first layout that can serve `format`.
pub fn find_compatible_buffer(vertex_layouts: &[VertexBufferLayout], format: &VertexFormat) -> (r:
    Option<usize>)
    ensures
        r is Some ==> r->Some_0 < vertex_layouts@.len() && compatible(
            vertex_layouts@[r->Some_0 as int].format@,
            format@,
        ),
        r is Some ==> forall|j: int|
            0 <= j < r->Some_0 ==> !compatible(#[trigger] vertex_layouts@[j].format@, format@),
        r is None ==> forall|j: int|
            0 <= j < vertex_layouts@.len() ==> !compatible(
                #[trigger] vertex_layouts@[j].format@,
                format@,
            ),
{
    let mut i: usize = 0;
    while i < vertex_layouts.len()
        invariant
            i <= vertex_layouts@.len(),
            forall|j: int| 0 <= j < i ==> !compatible(#[trigger] vertex_layouts@[j].format@, format@),
        decreases vertex_layouts@.len() - i,
    {
        if is_compatible(&vertex_layouts[i].format, format) {
            return Some(i);
        }
        i += 1;
    }
    None
}

/// The cursor after the first `k` requested formats were looked up in
/// order, each from the place where the one before it was found. It is the
/// number of layouts as soon as one of them was not found.
pub open spec fn cursor_after(layouts: Seq<LayoutSpec>, formats: Seq<FormatSpec>, k: int) -> int
    decreases k,
{
    if k <= 0 {
        0
    } else {
        first_compatible(layouts, formats[k - 1], cursor_after(layouts, formats, k - 1))
    }
}

/// The requested format number `k` is found: the cursor stops at a layout.
pub open spec fn resolved(layouts: Seq<LayoutSpec>, formats: Seq<FormatSpec>, k: int) -> bool {
    cursor_after(layouts, formats, k + 1) < layouts.len()
}

/// Every requested format is found.
pub open spec fn all_resolved(layouts: Seq<LayoutSpec>, formats: Seq<FormatSpec>) -> bool {
    forall|k: int| 0 <= k < formats.len() ==> resolved(layouts, formats, k)
}

/// The requested format number `k` is the first that is not found.
pub open spec fn first_missing(layouts: Seq<LayoutSpec>, formats: Seq<FormatSpec>, k: int) -> bool {
    &&& 0 <= k < formats.len()
    &&& !resolved(layouts, formats, k)
    &&& forall|i: int| 0 <= i < k ==> resolved(layouts, formats, i)
}

/// The cursor never leaves the list of layouts.
pub proof fn lemma_cursor_in_range(layouts: Seq<LayoutSpec>, formats: Seq<FormatSpec>, k: int)
    ensures
        0 <= cursor_after(layouts, formats, k) <= layouts.len(),
    decreases k,
{
    if k > 0 {
        lemma_cursor_in_range(layouts, formats, k - 1);
        lemma_first_compatible_range(layouts, formats[k - 1], cursor_after(layouts, formats, k - 1));
    }
}

proof fn lemma_first_compatible_range(layouts: Seq<LayoutSpec>, format: FormatSpec, from: int)
    requires
        0 <= from,
    ensures
        from <= first_compatible(layouts, format, from) || first_compatible(layouts, format, from)
            == layouts.len(),
        first_compatible(layouts, format, from) <= layouts.len(),
        first_compatible(layouts, format, from) < layouts.len() ==> compatible(
            layouts[first_compatible(layouts, format, from)].format,
            format,
        ),
    decreases layouts.len() - from,
{
    if from < layouts.len() && !compatible(layouts[from].format, format) {
        lemma_first_compatible_range(layouts, format, from + 1);
    }
}

/// The buffer that serves a resolved request is compatible with it.
pub proof fn lemma_resolved_is_compatible(
    layouts: Seq<LayoutSpec>,
    formats: Seq<FormatSpec>,
    k: int,
)
    requires
        0 <= k < formats.len(),
        resolved(layouts, formats, k),
    ensures
        0 <= cursor_after(layouts, formats, k) <= cursor_after(layouts, formats, k + 1)
            < layouts.len(),
        compatible(layouts[cursor_after(layouts, formats, k + 1)].format, formats[k]),
{
    lemma_cursor_in_range(layouts, formats, k);
    lemma_first_compatible_range(layouts, formats[k], cursor_after(layouts, formats, k));
}

proof fn lemma_cursor_bound(layouts: Seq<LayoutSpec>, formats: Seq<FormatSpec>, k: int, p: int)
    requires
        formats_sorted(layout_formats(layouts)),
        formats_sorted(formats),
        forall|i: int|
            0 <= i < formats.len() ==> layout_formats(layouts).contains(#[trigger] formats[i]),
        0 <= k < formats.len(),
        0 <= p < layouts.len(),
        layouts[p].format == formats[k],
    ensures
        cursor_after(layouts, formats, k) <= p,
        cursor_after(layouts, formats, k + 1) <= p,
    decreases k,
{
    let stored = layout_formats(layouts);
    if k > 0 {
        let before = formats[k - 1];
        if before == formats[k] {
            lemma_cursor_bound(layouts, formats, k - 1, p);
        } else {
            assert(stored.contains(before));
            let q = choose|q: int| 0 <= q < stored.len() && stored[q] == before;
            lemma_cursor_bound(layouts, formats, k - 1, q);
            assert(before.at_most(formats[k]));
            lemma_format_total(before, formats[k]);
            assert(stored[q] == before && stored[p] == formats[k]);
            if p < q {
                assert(stored[p].at_most(stored[q]));
            }
        }
    }
    lemma_cursor_in_range(layouts, formats, k);
    lemma_self_compatible(formats[k]);
    lemma_first_compatible_bound(layouts, formats[k], cursor_after(layouts, formats, k), p);
}

/// Where the layouts of a mesh are in canonical order, a request list in
/// canonical order that only names formats stored in the mesh is resolved
/// in full.
pub proof fn lemma_sorted_subset_resolves(layouts: Seq<LayoutSpec>, formats: Seq<FormatSpec>)
    requires
        formats_sorted(layout_formats(layouts)),
        formats_sorted(formats),
        forall|i: int|
            0 <= i < formats.len() ==> layout_formats(layouts).contains(#[trigger] formats[i]),
    ensures
        all_resolved(layouts, formats),
{
    let stored = layout_formats(layouts);
    assert forall|k: int| 0 <= k < formats.len() implies resolved(layouts, formats, k) by {
        assert(stored.contains(formats[k]));
        let p = choose|p: int| 0 <= p < stored.len() && stored[p] == formats[k];
        lemma_cursor_bound(layouts, formats, k, p);
    }
}

/// A requested format that no stored layout can serve is never found.
pub proof fn lemma_unserved_format_is_missing(
    layouts: Seq<LayoutSpec>,
    formats: Seq<FormatSpec>,
    k: int,
)
    requires
        0 <= k < formats.len(),
        forall|j: int|
            0 <= j < layouts.len() ==> !compatible(#[trigger] layouts[j].format, formats[k]),
    ensures
        !resolved(layouts, formats, k),
{
    lemma_cursor_in_range(layouts, formats, k);
    lemma_first_compatible_range(layouts, formats[k], cursor_after(layouts, formats, k));
}

/// A request for one format that no stored layout can serve fails on that format.
pub proof fn lemma_single_unserved_format(layouts: Seq<LayoutSpec>, format: FormatSpec)
    requires
        forall|j: int| 0 <= j < layouts.len() ==> !compatible(#[trigger] layouts[j].format, format),
    ensures
        first_missing(layouts, seq![format], 0),
{
    lemma_unserved_format_is_missing(layouts, seq![format], 0);
}

/// Offsets of the buffers that were found so far, in request order, in a
/// `smallvec::SmallVec`.
#[verifier::external_body]
pub struct OffsetList {
    inner: smallvec::SmallVec<[u64; 16]>,
}

/// The offsets that an `OffsetList` holds, in the order in which they were pushed.
pub uninterp spec fn offsets_of(list: OffsetList) -> Seq<u64>;

/// `smallvec::SmallVec::new`: the new list holds nothing.
#[verifier::external_body]
fn offsets_new() -> (list: OffsetList)
    ensures
        offsets_of(list).len() == 0,
{
    OffsetList { inner: smallvec::SmallVec::new() }
}

/// `smallvec::SmallVec::push`: the offset is appended behind those already held.
#[verifier::external_body]
fn offsets_push(list: &mut OffsetList, offset: u64)
    ensures
        offsets_of(*final(list)) == offsets_of(*old(list)).push(offset),
{
    list.inner.push(offset)
}

/// `smallvec::SmallVec::into_vec`: the same offsets in the same order.
#[verifier::external_body]
fn offsets_into_vec(list: OffsetList) -> (offsets: Vec<u64>)
    ensures
        offsets@ == offsets_of(list),
{
    list.inner.into_vec()
}

/// Copies of the formats of all layouts, in the order of the layouts.
pub fn available_formats(layouts: &[VertexBufferLayout]) -> (formats: Vec<VertexFormat>)
    ensures
        format_views(formats@) == layout_formats(layout_views(layouts@)),
{
    let mut formats: Vec<VertexFormat> = Vec::new();
    let mut i: usize = 0;
    while i < layouts.len()
        invariant
            i <= layouts@.len(),
            formats@.len() == i,
            forall|j: int| 0 <= j < i ==> (#[trigger] formats@[j])@ == layouts@[j].format@,
        decreases layouts@.len() - i,
    {
        formats.push(layouts[i].format.clone());
        i += 1;
    }
    assert(format_views(formats@) =~= layout_formats(layout_views(layouts@)));
    formats
}

/// `offsets` are the buffer offsets of the layouts that serve the requested
/// formats: every format is found, each from the layout where the one
/// before it was found.
pub open spec fn offsets_resolve(
    layouts: Seq<LayoutSpec>,
    formats: Seq<FormatSpec>,
    offsets: Seq<u64>,
) -> bool {
    &&& offsets.len() == formats.len()
    &&& forall|k: int|
        0 <= k < formats.len() ==> #[trigger] resolved(layouts, formats, k) && offsets[k]
            == layouts[cursor_after(layouts, formats, k + 1)].offset
}

impl Incompatible {
    /// The error names the first requested format that is not found, and
    /// the formats of all layouts in their order.
    pub open spec fn reports(&self, layouts: Seq<LayoutSpec>, formats: Seq<FormatSpec>) -> bool {
        &&& exists|k: int| #[trigger]
            first_missing(layouts, formats, k) && self.not_found@ == formats[k]
        &&& format_views(self.in_formats@) == layout_formats(layouts)
    }
}

/// Looks up each requested format in order, each from the layout where the
/// one before it was found, and returns the buffer offsets of the layouts
/// found. Fails on the first format that is not found.
pub fn resolve_all(layouts: &[VertexBufferLayout], formats: &[VertexFormat]) -> (r: Result<
    Vec<u64>,
    Incompatible,
>)
    ensures
        r is Ok == all_resolved(layout_views(layouts@), format_views(formats@)),
        r is Ok ==> offsets_resolve(layout_views(layouts@), format_views(formats@), r->Ok_0@),
        r is Err ==> r->Err_0.reports(layout_views(layouts@), format_views(formats@)),
{
    let ghost stored = layout_views(layouts@);
    let ghost wanted = format_views(formats@);
    let mut vertex = offsets_new();
    let mut next: usize = 0;
    let mut k: usize = 0;
    while k < formats.len()
        invariant
            stored == layout_views(layouts@),
            wanted == format_views(formats@),
            k <= formats@.len(),
            next == cursor_after(stored, wanted, k as int),
            next <= layouts@.len(),
            offsets_of(vertex).len() == k,
            forall|i: int|
                0 <= i < k ==> #[trigger] resolved(stored, wanted, i) && offsets_of(vertex)[i]
                    == stored[cursor_after(stored, wanted, i + 1)].offset,
        decreases formats@.len() - k,
    {
        let format = &formats[k];
        let tail = &layouts[next..layouts.len()];
        proof {
            assert(wanted[k as int] == format@);
            assert forall|j: int| 0 <= j < tail@.len() implies tail@[j].format@ == stored[next
                + j].format by {
                assert(tail@[j] == layouts@[next + j]);
            }
        }
        match find_compatible_buffer(tail, format) {
            Some(index) => {
                proof {
                    assert forall|j: int| next <= j < next + index implies !compatible(
                        #[trigger] stored[j].format,
                        format@,
                    ) by {
                        assert(tail@[j - next].format@ == stored[j].format);
                    }
                    assert(tail@[index as int].format@ == stored[next + index].format);
                    lemma_first_compatible_is(stored, format@, next as int, next + index);
                }
                next += index;
                assert(stored[next as int].offset == layouts@[next as int].offset);
                let ghost found = offsets_of(vertex);
                offsets_push(&mut vertex, layouts[next].offset);
                proof {
                    assert(cursor_after(stored, wanted, k + 1) == next);
                    assert(resolved(stored, wanted, k as int));
                    assert forall|i: int| 0 <= i < k + 1 implies #[trigger] resolved(
                        stored,
                        wanted,
                        i,
                    ) && offsets_of(vertex)[i] == stored[cursor_after(stored, wanted, i + 1)].offset by {
                        if i < k {
                            assert(resolved(stored, wanted, i));
                            assert(offsets_of(vertex)[i] == found[i]);
                        }
                    }
                }
            },
            None => {
                proof {
                    assert forall|j: int| next <= j < stored.len() implies !compatible(
                        #[trigger] stored[j].format,
                        format@,
                    ) by {
                        assert(tail@[j - next].format@ == stored[j].format);
                    }
                    lemma_first_compatible_is(stored, format@, next as int, stored.len() as int);
                    assert(first_missing(stored, wanted, k as int));
                }
                // Can't bind.
                return Err(
                    Incompatible {
                        not_found: format.clone(),
                        in_formats: available_formats(layouts),
                    },
                );
            },
        }
        k += 1;
    }
    Ok(offsets_into_vec(vertex))
}

/// The order of `K` is specified: what `<` and `>` return on keys is known.
pub open spec fn order_is_specified<K: PartialOrd>() -> bool {
    K::obeys_partial_cmp_spec()
}

/// `a` is ordered after `b`.
pub open spec fn out_of_order<K: PartialOrd>(a: K, b: K) -> bool {
    a.partial_cmp_spec(&b) == Some(Ordering::Greater)
}

/// No key is ordered after the key that follows it.
pub open spec fn keys_sorted<K: PartialOrd>(keys: Seq<K>) -> bool {
    forall|i: int| 0 < i < keys.len() ==> !out_of_order(keys[i - 1], #[trigger] keys[i])
}

/// `keys` are results of `f` on the first items, one for each, in order.
pub open spec fn keys_of<'a, T: 'a, K, F: Fn(&'a T) -> K>(f: F, items: Seq<T>, keys: Seq<K>) -> bool {
    &&& keys.len() <= items.len()
    &&& forall|i: int| 0 <= i < keys.len() ==> call_ensures(f, (&items[i],), #[trigger] keys[i])
}

/// Whether a slice is sorted, by an ordered key and a key extractor.
///
/// The keys are taken from the items in order, one call of `f` for each,
/// until a key is ordered after the one that follows it.
pub fn is_slice_sorted_by_key<'a, T: 'a, K: Ord, F: Fn(&'a T) -> K>(slice: &'a [T], f: F) -> (sorted:
    bool)
    requires
        forall|i: int| 0 <= i < slice@.len() ==> call_requires(f, (&#[trigger] slice@[i],)),
    ensures
        order_is_specified::<K>() && sorted ==> exists|keys: Seq<K>| #[trigger]
            keys_of(f, slice@, keys) && keys.len() == slice@.len() && keys_sorted(keys),
        order_is_specified::<K>() && !sorted ==> exists|keys: Seq<K>| #[trigger]
            keys_of(f, slice@, keys) && !keys_sorted(keys),
{
    let n = slice.len();
    if n == 0 {
        proof {
            let keys = Seq::<K>::empty();
            assert(keys_of(f, slice@, keys));
        }
        return true;
    }
    let mut last = f(&slice[0]);
    let ghost mut keys: Seq<K> = seq![last];
    let mut i: usize = 1;
    while i < n
        invariant
            n == slice@.len(),
            1 <= i <= n,
            forall|j: int| 0 <= j < slice@.len() ==> call_requires(f, (&#[trigger] slice@[j],)),
            keys.len() == i,
            keys_of(f, slice@, keys),
            keys[i - 1] == last,
            order_is_specified::<K>() ==> keys_sorted(keys),
        decreases n - i,
    {
        let item = f(&slice[i]);
        let ghost longer = keys.push(item);
        proof {
            assert(keys_of(f, slice@, longer));
        }
        if last > item {
            proof {
                assert(order_is_specified::<K>() ==> out_of_order(longer[i - 1], longer[i as int]));
            }
            return false;
        }
        proof {
            keys = longer;
        }
        last = item;
        i += 1;
    }
    true
}

/// Whether a slice of ordered values is sorted.
pub fn is_slice_sorted<T: Ord>(slice: &[T]) -> (sorted: bool)
    ensures
        order_is_specified::<T>() ==> sorted == keys_sorted(slice@),
{
    let n = slice.len();
    let mut i: usize = 1;
    while i < n
        invariant
            n == slice@.len(),
            1 <= i,
            order_is_specified::<T>() ==> forall|j: int|
                0 < j < i && j < n ==> !out_of_order(slice@[j - 1], #[trigger] slice@[j]),
        decreases n - i,
    {
        if slice[i - 1] > slice[i] {
            proof {
                assert(order_is_specified::<T>() ==> out_of_order(slice@[i - 1], slice@[i as int]));
            }
            return false;
        }
        i += 1;
    }
    true
}

/// For vertex formats, the sortedness that `is_slice_sorted` tests is the canonical order.
pub proof fn lemma_sorted_formats(formats: Seq<VertexFormat>)
    ensures
        keys_sorted(formats) == formats_sorted(format_views(formats)),
{
    let views = format_views(formats);
    if keys_sorted(formats) {
        assert forall|i: int, j: int| 0 <= i < j < views.len() implies views[i].at_most(
            views[j],
        ) by {
            lemma_sorted_reaches(formats, i, j);
        }
    }
    if formats_sorted(views) {
        assert forall|i: int| 0 < i < formats.len() implies !out_of_order(
            formats[i - 1],
            #[trigger] formats[i],
        ) by {
            assert(views[i - 1].at_most(views[i]));
            lemma_format_total(views[i - 1], views[i]);
            if views[i - 1].before(views[i]) {
                lemma_format_asymmetric(views[i - 1], views[i]);
            }
        }
    }
}

proof fn lemma_sorted_reaches(formats: Seq<VertexFormat>, i: int, j: int)
    requires
        keys_sorted(formats),
        0 <= i < j < formats.len(),
    ensures
        formats[i]@.at_most(formats[j]@),
    decreases j - i,
{
    assert(!out_of_order(formats[j - 1], formats[j]));
    lemma_format_total(formats[j - 1]@, formats[j]@);
    if formats[j]@.before(formats[j - 1]@) {
        lemma_format_asymmetric(formats[j]@, formats[j - 1]@);
    }
    if i < j - 1 {
        lemma_sorted_reaches(formats, i, j - 1);
        lemma_at_most_transitive(formats[i]@, formats[j - 1]@, formats[j]@);
    }
}

} // verus!

//! Two-level instance batching: draw instances grouped by material and,
//! within a material, by mesh. The unordered batch coalesces the instances
//! of a key wherever they were inserted; the ordered batch keeps the order
//! of insertion and coalesces only what was inserted in a row.
use amethyst_rendy::batch::GroupIterator;
use vstd::prelude::*;

verus! {

/// The instances of one run of equal keys in a stream of instances.
#[derive(Debug)]
pub struct InstanceGroup {
    pub material: u32,
    pub mesh: u32,
    pub instances: Vec<u32>,
}

impl View for InstanceGroup {
    type V = (u32, u32, Seq<u32>);

    open spec fn view(&self) -> (u32, u32, Seq<u32>) {
        (self.material, self.mesh, self.instances@)
    }
}

/// The groups of a list, as specifications see them.
pub open spec fn group_views(groups: Seq<InstanceGroup>) -> Seq<(u32, u32, Seq<u32>)> {
    groups.map_values(|g: InstanceGroup| g@)
}

/// The runs of a stream of `(material, mesh, instance)`: instances that
/// follow each other with the same material and mesh form one group.
pub open spec fn grouped(items: Seq<(u32, u32, u32)>) -> Seq<(u32, u32, Seq<u32>)>
    decreases items.len(),
{
    if items.len() == 0 {
        Seq::empty()
    } else {
        let groups = grouped(items.drop_last());
        let (material, mesh, instance) = items.last();
        if groups.len() > 0 && groups.last().0 == material && groups.last().1 == mesh {
            groups.update(groups.len() - 1, (material, mesh, groups.last().2.push(instance)))
        } else {
            groups.push((material, mesh, seq![instance]))
        }
    }
}

/// The instances of a group, each with the key of the group.
pub open spec fn keyed(material: u32, mesh: u32, instances: Seq<u32>) -> Seq<(u32, u32, u32)> {
    instances.map_values(|x: u32| (material, mesh, x))
}

/// The stream that a list of groups stands for: the instances of each
/// group with its key, one group after the other.
pub open spec fn group_stream(groups: Seq<(u32, u32, Seq<u32>)>) -> Seq<(u32, u32, u32)>
    decreases groups.len(),
{
    if groups.len() == 0 {
        Seq::empty()
    } else {
        group_stream(groups.drop_last()) + keyed(
            groups.last().0,
            groups.last().1,
            groups.last().2,
        )
    }
}

/// Grouping loses nothing and moves nothing: the groups, read in order, are the stream.
pub proof fn lemma_grouped_keeps_stream(items: Seq<(u32, u32, u32)>)
    ensures
        group_stream(grouped(items)) == items,
    decreases items.len(),
{
    if items.len() > 0 {
        let rest = items.drop_last();
        lemma_grouped_keeps_stream(rest);
        let groups = grouped(rest);
        let (material, mesh, instance) = items.last();
        let after = grouped(items);
        if groups.len() > 0 && groups.last().0 == material && groups.last().1 == mesh {
            assert(after.drop_last() =~= groups.drop_last());
            assert(keyed(material, mesh, groups.last().2.push(instance)) =~= keyed(
                material,
                mesh,
                groups.last().2,
            ).push(items.last()));
            assert(group_stream(after) =~= group_stream(groups).push(items.last()));
        } else {
            assert(after.drop_last() =~= groups);
            assert(keyed(material, mesh, seq![instance]) =~= seq![items.last()]);
            assert(group_stream(after) =~= group_stream(groups).push(items.last()));
        }
        assert(rest.push(items.last()) =~= items);
    }
}

/// `GroupIterator::for_each_group` of amethyst_rendy, its groups collected
/// in the order in which they are handed out: the runs of equal keys.
#[verifier::external_body]
fn group_items(items: Vec<(u32, u32, u32)>) -> (groups: Vec<InstanceGroup>)
    ensures
        group_views(groups@) == grouped(items@),
{
    let mut groups = Vec::new();
    items.into_iter().map(|(material, mesh, instance)| ((material, mesh), instance)).for_each_group(
        |key, data| {
            groups.push(InstanceGroup { material: key.0, mesh: key.1, instances: data.clone() })
        },
    );
    groups
}

/// Groups a stream of `(material, mesh, instance)` into its runs of equal keys.
pub fn group_instances(items: Vec<(u32, u32, u32)>) -> (groups: Vec<InstanceGroup>)
    ensures
        group_views(groups@) == grouped(items@),
        group_stream(group_views(groups@)) == items@,
{
    proof {
        lemma_grouped_keeps_stream(items@);
    }
    group_items(items)
}

/// Number of instances in a list of leaves `(mesh, instances)`.
pub open spec fn leaf_total(leaves: Seq<(u32, Seq<u32>)>) -> nat
    decreases leaves.len(),
{
    if leaves.len() == 0 {
        0
    } else {
        leaf_total(leaves.drop_last()) + leaves.last().1.len()
    }
}

/// Number of instances in a list of runs `(material, leaves)`.
pub open spec fn run_total(runs: Seq<(u32, Seq<(u32, Seq<u32>)>)>) -> nat
    decreases runs.len(),
{
    if runs.len() == 0 {
        0
    } else {
        run_total(runs.drop_last()) + leaf_total(runs.last().1)
    }
}

/// Number of leaves in a list of runs.
pub open spec fn leaf_count(runs: Seq<(u32, Seq<(u32, Seq<u32>)>)>) -> nat
    decreases runs.len(),
{
    if runs.len() == 0 {
        0
    } else {
        leaf_count(runs.drop_last()) + runs.last().1.len()
    }
}

/// The key `(material, mesh)` of the last leaf; `None` where there is no leaf.
pub open spec fn last_key(runs: Seq<(u32, Seq<(u32, Seq<u32>)>)>) -> Option<(u32, u32)> {
    if runs.len() > 0 && runs.last().1.len() > 0 {
        Some((runs.last().0, runs.last().1.last().0))
    } else {
        None
    }
}

/// The runs can take `more` instances in one insertion: the instances
/// and the leaves can still be counted in a `u32` afterwards.
pub open spec fn runs_admit(runs: Seq<(u32, Seq<(u32, Seq<u32>)>)>, more: nat) -> bool {
    run_total(runs) + more <= u32::MAX && leaf_count(runs) < u32::MAX
}

/// The instances of a list of leaves, one leaf after the other.
pub open spec fn leaf_data(leaves: Seq<(u32, Seq<u32>)>) -> Seq<u32>
    decreases leaves.len(),
{
    if leaves.len() == 0 {
        Seq::empty()
    } else {
        leaf_data(leaves.drop_last()) + leaves.last().1
    }
}

/// The instances of a list of runs, one run after the other.
pub open spec fn run_data(runs: Seq<(u32, Seq<(u32, Seq<u32>)>)>) -> Seq<u32>
    decreases runs.len(),
{
    if runs.len() == 0 {
        Seq::empty()
    } else {
        run_data(runs.drop_last()) + leaf_data(runs.last().1)
    }
}

/// The keys `(material, mesh)` of the leaves of one run, in order.
pub open spec fn leaf_keys(material: u32, leaves: Seq<(u32, Seq<u32>)>) -> Seq<(u32, u32)> {
    leaves.map_values(|l: (u32, Seq<u32>)| (material, l.0))
}

/// The keys `(material, mesh)` of all leaves, in the order in which they are drawn.
pub open spec fn run_keys(runs: Seq<(u32, Seq<(u32, Seq<u32>)>)>) -> Seq<(u32, u32)>
    decreases runs.len(),
{
    if runs.len() == 0 {
        Seq::empty()
    } else {
        run_keys(runs.drop_last()) + leaf_keys(runs.last().0, runs.last().1)
    }
}

/// The instances of the leaves of one run, each with its key, in order.
pub open spec fn leaf_stream(material: u32, leaves: Seq<(u32, Seq<u32>)>) -> Seq<(u32, u32, u32)>
    decreases leaves.len(),
{
    if leaves.len() == 0 {
        Seq::empty()
    } else {
        leaf_stream(material, leaves.drop_last()) + keyed(
            material,
            leaves.last().0,
            leaves.last().1,
        )
    }
}

/// All instances with their keys, in the order in which they are drawn.
pub open spec fn run_stream(runs: Seq<(u32, Seq<(u32, Seq<u32>)>)>) -> Seq<(u32, u32, u32)>
    decreases runs.len(),
{
    if runs.len() == 0 {
        Seq::empty()
    } else {
        run_stream(runs.drop_last()) + leaf_stream(runs.last().0, runs.last().1)
    }
}

/// The runs after `data` was inserted under `(material, mesh)`: the data
/// joins the last leaf where that has the same material and mesh, else it
/// becomes a new leaf, of the last run where that has the same material,
/// else of a new run.
pub open spec fn insert_runs(
    runs: Seq<(u32, Seq<(u32, Seq<u32>)>)>,
    material: u32,
    mesh: u32,
    data: Seq<u32>,
) -> Seq<(u32, Seq<(u32, Seq<u32>)>)> {
    if runs.len() > 0 && runs.last().0 == material {
        let leaves = runs.last().1;
        if leaves.len() > 0 && leaves.last().0 == mesh {
            runs.update(
                runs.len() - 1,
                (material, leaves.update(leaves.len() - 1, (mesh, leaves.last().1 + data))),
            )
        } else {
            runs.update(runs.len() - 1, (material, leaves.push((mesh, data))))
        }
    } else {
        runs.push((material, seq![(mesh, data)]))
    }
}

/// Position in the instance data at which leaf `j` of run `i` starts.
pub open spec fn leaf_start(runs: Seq<(u32, Seq<(u32, Seq<u32>)>)>, i: int, j: int) -> int {
    (run_total(runs.take(i)) + leaf_total(runs[i].1.take(j))) as int
}

/// The instances of one mesh in the instance data of a batch.
#[derive(Clone, Copy, Debug, PartialEq, Eq, Structural)]
pub struct MeshRange {
    pub mesh: u32,
    /// Position of the first instance.
    pub start: u32,
    /// Position behind the last instance.
    pub end: u32,
}

/// The meshes that are drawn with one material, in the order in which they are drawn.
#[derive(Debug)]
pub struct MaterialGroup {
    pub material: u32,
    pub meshes: Vec<MeshRange>,
}

/// `group` is run `i` of `runs`, each leaf with its place in the instance data.
pub open spec fn group_matches(
    group: MaterialGroup,
    runs: Seq<(u32, Seq<(u32, Seq<u32>)>)>,
    i: int,
) -> bool {
    &&& group.material == runs[i].0
    &&& group.meshes@.len() == runs[i].1.len()
    &&& forall|j: int|
        0 <= j < runs[i].1.len() ==> (#[trigger] group.meshes@[j]) == (MeshRange {
            mesh: runs[i].1[j].0,
            start: leaf_start(runs, i, j) as u32,
            end: (leaf_start(runs, i, j) + runs[i].1[j].1.len()) as u32,
        })
}

/// `groups` are the runs in order, each leaf with its place in the instance data.
pub open spec fn groups_match(
    groups: Seq<MaterialGroup>,
    runs: Seq<(u32, Seq<(u32, Seq<u32>)>)>,
) -> bool {
    &&& groups.len() == runs.len()
    &&& forall|i: int| 0 <= i < runs.len() ==> group_matches(#[trigger] groups[i], runs, i)
}

/// `amethyst_rendy::batch::OrderedTwoLevelBatch`, of which only the
/// contracts below say something.
#[verifier::external_type_specification]
#[verifier::external_body]
#[verifier::reject_recursive_types(PK)]
#[verifier::reject_recursive_types(SK)]
#[verifier::reject_recursive_types(D)]
pub struct ExOrderedTwoLevelBatch<PK: PartialEq, SK: PartialEq, D>(
    amethyst_rendy::batch::OrderedTwoLevelBatch<PK, SK, D>,
);

/// What an ordered batch holds: its runs `(material, leaves)` in the order
/// of insertion, the leaves `(mesh, instances)` of a run in the order of
/// insertion too.
pub uninterp spec fn ordered_runs(
    batch: amethyst_rendy::batch::OrderedTwoLevelBatch<u32, u32, u32>,
) -> Seq<(u32, Seq<(u32, Seq<u32>)>)>;

/// `Default::default` of `OrderedTwoLevelBatch`: a batch that holds nothing.
#[verifier::external_body]
fn ordered_new() -> (batch: amethyst_rendy::batch::OrderedTwoLevelBatch<u32, u32, u32>)
    ensures
        ordered_runs(batch).len() == 0,
{
    Default::default()
}

/// `OrderedTwoLevelBatch::swap_clear`: the batch holds nothing afterwards.
#[verifier::external_body]
fn ordered_swap_clear(batch: &mut amethyst_rendy::batch::OrderedTwoLevelBatch<u32, u32, u32>)
    ensures
        ordered_runs(*final(batch)).len() == 0,
{
    batch.swap_clear()
}

/// `OrderedTwoLevelBatch::insert`: the data is appended to the instance
/// data; it extends the last leaf where that has the same material and
/// mesh, else it is a new leaf, within the last run where that has the same
/// material, else in a new run. Positions in the instance data and the
/// number of leaves of a run are kept as `u32`.
#[verifier::external_body]
fn ordered_insert(
    batch: &mut amethyst_rendy::batch::OrderedTwoLevelBatch<u32, u32, u32>,
    material: u32,
    mesh: u32,
    data: Vec<u32>,
)
    requires
        runs_admit(ordered_runs(*old(batch)), data@.len()),
    ensures
        ordered_runs(*final(batch)) == insert_runs(ordered_runs(*old(batch)), material, mesh, data@),
{
    batch.insert(material, mesh, data)
}

/// `OrderedTwoLevelBatch::data`: the instances of all leaves in the order of the leaves.
#[verifier::external_body]
fn ordered_data(batch: &amethyst_rendy::batch::OrderedTwoLevelBatch<u32, u32, u32>) -> (data: Vec<
    u32,
>)
    ensures
        data@ == run_data(ordered_runs(*batch)),
{
    batch.data().clone()
}

/// `OrderedTwoLevelBatch::count`: the number of instances held.
#[verifier::external_body]
fn ordered_count(batch: &amethyst_rendy::batch::OrderedTwoLevelBatch<u32, u32, u32>) -> (count:
    usize)
    ensures
        count == run_total(ordered_runs(*batch)),
{
    batch.count()
}

/// `OrderedTwoLevelBatch::iter`: the runs in order, each with its material
/// and, for each of its leaves in order, the mesh and the range of its
/// instances in the instance data.
#[verifier::external_body]
fn ordered_groups(batch: &amethyst_rendy::batch::OrderedTwoLevelBatch<u32, u32, u32>) -> (groups:
    Vec<MaterialGroup>)
    requires
        run_total(ordered_runs(*batch)) <= u32::MAX,
    ensures
        groups_match(groups@, ordered_runs(*batch)),
{
    batch.iter().map(
        |(material, leaves)|
            MaterialGroup {
                material: *material,
                meshes: leaves.iter().map(
                    |(mesh, range)| MeshRange { mesh: *mesh, start: range.start, end: range.end },
                ).collect(),
            },
    ).collect()
}

/// Inserting adds the data to the instances held.
pub proof fn lemma_insert_total(
    runs: Seq<(u32, Seq<(u32, Seq<u32>)>)>,
    material: u32,
    mesh: u32,
    data: Seq<u32>,
)
    ensures
        run_total(insert_runs(runs, material, mesh, data)) == run_total(runs) + data.len(),
{
    let after = insert_runs(runs, material, mesh, data);
    if runs.len() > 0 && runs.last().0 == material {
        let leaves = runs.last().1;
        assert(after.drop_last() =~= runs.drop_last());
        if leaves.len() > 0 && leaves.last().0 == mesh {
            assert(after.last().1.drop_last() =~= leaves.drop_last());
        } else {
            assert(after.last().1.drop_last() =~= leaves);
        }
    } else {
        assert(after.drop_last() =~= runs);
        assert(after.last().1.drop_last() =~= Seq::<(u32, Seq<u32>)>::empty());
        assert(leaf_total(after.last().1.drop_last()) == 0);
        assert(leaf_total(after.last().1) == data.len());
    }
}

/// Inserting makes one leaf, unless the last leaf has the key of the
/// insertion; the leaf of the insertion is the last one afterwards.
pub proof fn lemma_insert_leaves(
    runs: Seq<(u32, Seq<(u32, Seq<u32>)>)>,
    material: u32,
    mesh: u32,
    data: Seq<u32>,
)
    ensures
        last_key(insert_runs(runs, material, mesh, data)) == Some((material, mesh)),
        leaf_count(insert_runs(runs, material, mesh, data)) == leaf_count(runs) + if last_key(runs)
            == Some((material, mesh)) {
            0nat
        } else {
            1nat
        },
{
    let after = insert_runs(runs, material, mesh, data);
    if runs.len() > 0 && runs.last().0 == material {
        assert(after.drop_last() =~= runs.drop_last());
    } else {
        assert(after.drop_last() =~= runs);
    }
}

/// Inserting appends the data to the instance data.
pub proof fn lemma_insert_data(
    runs: Seq<(u32, Seq<(u32, Seq<u32>)>)>,
    material: u32,
    mesh: u32,
    data: Seq<u32>,
)
    ensures
        run_data(insert_runs(runs, material, mesh, data)) == run_data(runs) + data,
{
    let after = insert_runs(runs, material, mesh, data);
    if runs.len() > 0 && runs.last().0 == material {
        let leaves = runs.last().1;
        assert(after.drop_last() =~= runs.drop_last());
        if leaves.len() > 0 && leaves.last().0 == mesh {
            assert(after.last().1.drop_last() =~= leaves.drop_last());
            assert(leaf_data(after.last().1) =~= leaf_data(leaves) + data);
        } else {
            assert(after.last().1.drop_last() =~= leaves);
        }
        assert(run_data(after) =~= run_data(runs) + data);
    } else {
        assert(after.drop_last() =~= runs);
        assert(after.last().1.drop_last() =~= Seq::<(u32, Seq<u32>)>::empty());
        assert(leaf_data(after.last().1.drop_last()) =~= Seq::<u32>::empty());
        assert(leaf_data(after.last().1) =~= data);
    }
}

/// Inserting appends the data, with its key, to the stream of instances
/// that the batch draws: what was inserted earlier is drawn earlier.
pub proof fn lemma_insert_appends(
    runs: Seq<(u32, Seq<(u32, Seq<u32>)>)>,
    material: u32,
    mesh: u32,
    data: Seq<u32>,
)
    ensures
        run_stream(insert_runs(runs, material, mesh, data)) == run_stream(runs) + keyed(
            material,
            mesh,
            data,
        ),
{
    let after = insert_runs(runs, material, mesh, data);
    if runs.len() > 0 && runs.last().0 == material {
        let leaves = runs.last().1;
        assert(after.drop_last() =~= runs.drop_last());
        if leaves.len() > 0 && leaves.last().0 == mesh {
            assert(after.last().1.drop_last() =~= leaves.drop_last());
            assert(keyed(material, mesh, leaves.last().1 + data) =~= keyed(
                material,
                mesh,
                leaves.last().1,
            ) + keyed(material, mesh, data));
            assert(leaf_stream(material, after.last().1) =~= leaf_stream(material, leaves) + keyed(
                material,
                mesh,
                data,
            ));
        } else {
            assert(after.last().1.drop_last() =~= leaves);
        }
        assert(run_stream(after) =~= run_stream(runs) + keyed(material, mesh, data));
    } else {
        assert(after.drop_last() =~= runs);
        assert(after.last().1.drop_last() =~= Seq::<(u32, Seq<u32>)>::empty());
        assert(leaf_stream(material, after.last().1.drop_last()) =~= Seq::<(u32, u32, u32)>::empty());
        assert(leaf_stream(material, after.last().1) =~= keyed(material, mesh, data));
    }
}

/// The runs after the groups were inserted one after the other.
pub open spec fn after_inserts(
    runs: Seq<(u32, Seq<(u32, Seq<u32>)>)>,
    groups: Seq<(u32, u32, Seq<u32>)>,
) -> Seq<(u32, Seq<(u32, Seq<u32>)>)>
    decreases groups.len(),
{
    if groups.len() == 0 {
        runs
    } else {
        insert_runs(
            after_inserts(runs, groups.drop_last()),
            groups.last().0,
            groups.last().1,
            groups.last().2,
        )
    }
}

/// The ordered batch draws in the order of insertion: after any sequence
/// of insertions into an empty batch, the instances with their keys, read
/// in drawing order, are the inserted ones in the order of insertion. No
/// group is drawn before one whose first instance came earlier.
pub proof fn lemma_ordered_keeps_order(groups: Seq<(u32, u32, Seq<u32>)>)
    ensures
        run_stream(after_inserts(Seq::empty(), groups)) == group_stream(groups),
    decreases groups.len(),
{
    if groups.len() > 0 {
        lemma_ordered_keeps_order(groups.drop_last());
        lemma_insert_appends(
            after_inserts(Seq::empty(), groups.drop_last()),
            groups.last().0,
            groups.last().1,
            groups.last().2,
        );
    }
}

/// No two leaves that follow each other in a run have the same mesh, no two
/// runs that follow each other have the same material, and no run is empty.
pub open spec fn coalesced(runs: Seq<(u32, Seq<(u32, Seq<u32>)>)>) -> bool {
    &&& forall|i: int| 0 <= i < runs.len() ==> (#[trigger] runs[i]).1.len() > 0
    &&& forall|i: int| 0 < i < runs.len() ==> runs[i - 1].0 != (#[trigger] runs[i]).0
    &&& forall|i: int, j: int|
        0 <= i < runs.len() && 0 < j < runs[i].1.len() ==> runs[i].1[j - 1].0
            != (#[trigger] runs[i].1[j]).0
}

/// Inserting keeps the batch coalesced.
pub proof fn lemma_insert_coalesced(
    runs: Seq<(u32, Seq<(u32, Seq<u32>)>)>,
    material: u32,
    mesh: u32,
    data: Seq<u32>,
)
    requires
        coalesced(runs),
    ensures
        coalesced(insert_runs(runs, material, mesh, data)),
{
    let after = insert_runs(runs, material, mesh, data);
    assert forall|i: int| 0 <= i < after.len() implies (#[trigger] after[i]).1.len() > 0 by {
        if i < runs.len() - 1 {
            assert(after[i] == runs[i]);
        }
    }
    assert forall|i: int| 0 < i < after.len() implies after[i - 1].0 != (#[trigger] after[i]).0 by {
        if i < runs.len() {
            assert(after[i].0 == runs[i].0);
            assert(after[i - 1].0 == runs[i - 1].0);
        }
    }
    assert forall|i: int, j: int| 0 <= i < after.len() && 0 < j < after[i].1.len() implies after[i].1[j
        - 1].0 != (#[trigger] after[i].1[j]).0 by {
        if i < runs.len() - 1 {
            assert(after[i] == runs[i]);
        } else if runs.len() > 0 && runs.last().0 == material {
            let leaves = runs.last().1;
            if j < leaves.len() {
                assert(after[i].1[j].0 == leaves[j].0);
                assert(after[i].1[j - 1].0 == leaves[j - 1].0);
            }
        }
    }
}

/// After any sequence of insertions into an empty batch the batch is
/// coalesced: what was inserted in a row under one key is one leaf, and
/// the leaves that were inserted in a row under one material are one run.
pub proof fn lemma_ordered_is_coalesced(groups: Seq<(u32, u32, Seq<u32>)>)
    ensures
        coalesced(after_inserts(Seq::empty(), groups)),
    decreases groups.len(),
{
    if groups.len() > 0 {
        lemma_ordered_is_coalesced(groups.drop_last());
        lemma_insert_coalesced(
            after_inserts(Seq::empty(), groups.drop_last()),
            groups.last().0,
            groups.last().1,
            groups.last().2,
        );
    }
}

/// Instance batch that keeps the order of insertion.
///
/// Instances inserted in a row under the same material and mesh form one
/// leaf, leaves inserted in a row under the same material form one run.
pub struct OrderedBatch {
    inner: amethyst_rendy::batch::OrderedTwoLevelBatch<u32, u32, u32>,
    previous: Vec<(u32, u32)>,
    leaves: usize,
    last: Option<(u32, u32)>,
}

impl View for OrderedBatch {
    type V = Seq<(u32, Seq<(u32, Seq<u32>)>)>;

    closed spec fn view(&self) -> Seq<(u32, Seq<(u32, Seq<u32>)>)> {
        ordered_runs(self.inner)
    }
}

proof fn lemma_leaf_keys_step(material: u32, leaves: Seq<(u32, Seq<u32>)>, j: int)
    requires
        0 <= j < leaves.len(),
    ensures
        leaf_keys(material, leaves.take(j + 1)) == leaf_keys(material, leaves.take(j)).push(
            (material, leaves[j].0),
        ),
{
    assert(leaf_keys(material, leaves.take(j + 1)) =~= leaf_keys(material, leaves.take(j)).push(
        (material, leaves[j].0),
    ));
}

proof fn lemma_run_keys_step(runs: Seq<(u32, Seq<(u32, Seq<u32>)>)>, i: int)
    requires
        0 <= i < runs.len(),
    ensures
        run_keys(runs.take(i + 1)) == run_keys(runs.take(i)) + leaf_keys(runs[i].0, runs[i].1),
{
    assert(runs.take(i + 1).drop_last() =~= runs.take(i));
    assert(runs.take(i + 1).last() == runs[i]);
}

impl OrderedBatch {
    /// The batch holds no more instances and leaves than a `u32` can
    /// count, and knows the number of its leaves and the key of the last
    /// one. Every batch that was made by `new` and filled by `insert` or
    /// `try_insert` is well formed.
    pub closed spec fn well_formed(&self) -> bool {
        &&& run_total(self@) <= u32::MAX
        &&& self.leaves == leaf_count(self@)
        &&& self.leaves <= u32::MAX
        &&& self.last == last_key(self@)
    }

    /// The batch can take `more` instances in one insertion.
    pub open spec fn admits(&self, more: nat) -> bool {
        runs_admit(self@, more)
    }

    /// A well-formed batch holds no more instances than a `u32` can count.
    pub proof fn lemma_bounded(&self)
        requires
            self.well_formed(),
        ensures
            run_total(self@) <= u32::MAX,
            leaf_count(self@) <= u32::MAX,
    {
    }

    /// The keys `(material, mesh)` of the leaves that the batch held at the
    /// end of the frame before, in drawing order.
    pub closed spec fn previous_keys(&self) -> Seq<(u32, u32)> {
        self.previous@
    }

    /// A batch that holds nothing and has seen no frame.
    pub fn new() -> (batch: OrderedBatch)
        ensures
            batch@.len() == 0,
            batch.previous_keys().len() == 0,
            batch.well_formed(),
    {
        OrderedBatch { inner: ordered_new(), previous: Vec::new(), leaves: 0, last: None }
    }

    /// Number of instances in the batch.
    pub fn count(&self) -> (count: usize)
        ensures
            count == run_total(self@),
    {
        ordered_count(&self.inner)
    }

    /// Number of leaves in the batch.
    pub fn leaves(&self) -> (leaves: usize)
        requires
            self.well_formed(),
        ensures
            leaves == leaf_count(self@),
    {
        self.leaves
    }

    /// Starts a frame: remembers the keys of the frame before and clears the batch.
    pub fn begin_frame(&mut self)
        requires
            old(self).well_formed(),
        ensures
            final(self)@.len() == 0,
            final(self).previous_keys() == run_keys(old(self)@),
            final(self).well_formed(),
    {
        let keys = self.keys();
        ordered_swap_clear(&mut self.inner);
        self.previous = keys;
        self.leaves = 0;
        self.last = None;
    }

    /// Appends instances under `(material, mesh)`: to the last leaf where
    /// that has the same material and mesh, else as a new leaf of the last
    /// run where that has the same material, else as a new run.
    pub fn insert(&mut self, material: u32, mesh: u32, instances: Vec<u32>)
        requires
            old(self).well_formed(),
            old(self).admits(instances@.len()),
        ensures
            final(self)@ == insert_runs(old(self)@, material, mesh, instances@),
            final(self).previous_keys() == old(self).previous_keys(),
            run_total(final(self)@) == run_total(old(self)@) + instances@.len(),
            final(self).well_formed(),
    {
        proof {
            lemma_insert_total(ordered_runs(self.inner), material, mesh, instances@);
            lemma_insert_leaves(ordered_runs(self.inner), material, mesh, instances@);
        }
        let joins = match self.last {
            Some(key) => key.0 == material && key.1 == mesh,
            None => false,
        };
        ordered_insert(&mut self.inner, material, mesh, instances);
        if !joins {
            self.leaves = self.leaves + 1;
        }
        self.last = Some((material, mesh));
    }

    /// Appends instances under `(material, mesh)` as `insert` does, unless
    /// the batch would then hold more instances than a `u32` can count: then
    /// it is left as it is. Returns whether the instances were inserted.
    pub fn try_insert(&mut self, material: u32, mesh: u32, instances: Vec<u32>) -> (inserted: bool)
        requires
            old(self).well_formed(),
        ensures
            inserted == old(self).admits(instances@.len()),
            inserted ==> final(self)@ == insert_runs(old(self)@, material, mesh, instances@),
            !inserted ==> final(self)@ == old(self)@,
            final(self).previous_keys() == old(self).previous_keys(),
            final(self).well_formed(),
    {
        let count = self.count();
        if self.leaves < u32::MAX as usize && instances.len() <= u32::MAX as usize - count {
            self.insert(material, mesh, instances);
            true
        } else {
            false
        }
    }

    /// The instances of all leaves, in drawing order.
    pub fn data(&self) -> (data: Vec<u32>)
        ensures
            data@ == run_data(self@),
    {
        ordered_data(&self.inner)
    }

    /// The runs in drawing order: each material with its meshes and the
    /// range that the instances of each mesh take in `data`.
    pub fn groups(&self) -> (groups: Vec<MaterialGroup>)
        requires
            self.well_formed(),
        ensures
            groups_match(groups@, self@),
    {
        ordered_groups(&self.inner)
    }

    /// The keys `(material, mesh)` of the leaves, in drawing order.
    pub fn keys(&self) -> (keys: Vec<(u32, u32)>)
        requires
            self.well_formed(),
        ensures
            keys@ == run_keys(self@),
    {
        let groups = self.groups();
        let ghost runs = self@;
        let mut keys: Vec<(u32, u32)> = Vec::new();
        let mut i: usize = 0;
        while i < groups.len()
            invariant
                groups_match(groups@, runs),
                i <= groups@.len(),
                keys@ == run_keys(runs.take(i as int)),
            decreases groups@.len() - i,
        {
            let group = &groups[i];
            assert(group_matches(groups@[i as int], runs, i as int));
            let ghost leaves = runs[i as int].1;
            let ghost before = keys@;
            let mut j: usize = 0;
            while j < group.meshes.len()
                invariant
                    group_matches(*group, runs, i as int),
                    0 <= i < runs.len(),
                    leaves == runs[i as int].1,
                    j <= group.meshes@.len(),
                    keys@ == before + leaf_keys(group.material, leaves.take(j as int)),
                decreases group.meshes@.len() - j,
            {
                proof {
                    lemma_leaf_keys_step(group.material, leaves, j as int);
                }
                keys.push((group.material, group.meshes[j].mesh));
                j += 1;
            }
            proof {
                assert(leaves.take(j as int) =~= leaves);
                lemma_run_keys_step(runs, i as int);
            }
            i += 1;
        }
        proof {
            assert(runs.take(i as int) =~= runs);
        }
        keys
    }

    /// Whether the keys of the leaves differ from those of the frame
    /// before: a leaf came, went or changed its place. A leaf that only
    /// holds more or fewer instances than before is no change.
    pub fn changed(&self) -> (changed: bool)
        requires
            self.well_formed(),
        ensures
            changed == (run_keys(self@) != self.previous_keys()),
    {
        let keys = self.keys();
        if keys.len() != self.previous.len() {
            return true;
        }
        let mut i: usize = 0;
        while i < keys.len()
            invariant
                keys@ == run_keys(self@),
                keys@.len() == self.previous@.len(),
                i <= keys@.len(),
                forall|j: int| 0 <= j < i ==> keys@[j] == self.previous@[j],
            decreases keys@.len() - i,
        {
            if keys[i].0 != self.previous[i].0 || keys[i].1 != self.previous[i].1 {
                assert(keys@[i as int] != self.previous@[i as int]);
                return true;
            }
            i += 1;
        }
        assert(keys@ =~= self.previous@);
        false
    }
}

/// `amethyst_rendy::batch::TwoLevelBatch`, of which only the contracts
/// below say something.
#[verifier::external_type_specification]
#[verifier::external_body]
#[verifier::reject_recursive_types(PK)]
#[verifier::reject_recursive_types(SK)]
#[verifier::reject_recursive_types(C)]
pub struct ExTwoLevelBatch<PK: Eq + std::hash::Hash, SK, C>(
    amethyst_rendy::batch::TwoLevelBatch<PK, SK, C>,
);

/// What an unordered batch holds: for each material that it knows, the
/// leaves `(mesh, instances)` of the material in the order in which they
/// were made.
pub uninterp spec fn unordered_map(
    batch: amethyst_rendy::batch::TwoLevelBatch<u32, u32, Vec<u32>>,
) -> Map<u32, Seq<(u32, Seq<u32>)>>;

/// The number of instances that an unordered batch has counted since it was cleared.
pub uninterp spec fn unordered_count(
    batch: amethyst_rendy::batch::TwoLevelBatch<u32, u32, Vec<u32>>,
) -> nat;

/// Index of the first leaf with the given mesh among the leaves from
/// `from` up to the eighth; -1 where there is none.
pub open spec fn first_slot(leaves: Seq<(u32, Seq<u32>)>, mesh: u32, from: int) -> int
    decreases leaves.len() - from,
{
    if from < 0 || from >= leaves.len() || from >= 8 {
        -1
    } else if leaves[from].0 == mesh {
        from
    } else {
        first_slot(leaves, mesh, from + 1)
    }
}

/// The leaves of a material after `data` was inserted under `mesh`: the
/// data joins the first leaf of that mesh among the first eight leaves,
/// else it becomes a new leaf behind the others.
pub open spec fn insert_leaf(leaves: Seq<(u32, Seq<u32>)>, mesh: u32, data: Seq<u32>) -> Seq<
    (u32, Seq<u32>),
> {
    let slot = first_slot(leaves, mesh, 0);
    if slot >= 0 {
        leaves.update(slot, (mesh, leaves[slot].1 + data))
    } else {
        leaves.push((mesh, data))
    }
}

/// The batch after `data` was inserted under `(material, mesh)`.
pub open spec fn insert_map(
    map: Map<u32, Seq<(u32, Seq<u32>)>>,
    material: u32,
    mesh: u32,
    data: Seq<u32>,
) -> Map<u32, Seq<(u32, Seq<u32>)>> {
    if map.contains_key(material) {
        map.insert(material, insert_leaf(map[material], mesh, data))
    } else {
        map.insert(material, seq![(mesh, data)])
    }
}

/// The batch with the same materials and no leaves.
pub open spec fn cleared(map: Map<u32, Seq<(u32, Seq<u32>)>>) -> Map<u32, Seq<(u32, Seq<u32>)>> {
    Map::new(|material: u32| map.contains_key(material), |material: u32| Seq::empty())
}

/// The batch without the materials that have no leaves.
pub open spec fn pruned(map: Map<u32, Seq<(u32, Seq<u32>)>>) -> Map<u32, Seq<(u32, Seq<u32>)>> {
    Map::new(
        |material: u32| map.contains_key(material) && map[material].len() > 0,
        |material: u32| map[material],
    )
}

/// Pruning twice in a row removes nothing that pruning once has left.
pub proof fn lemma_prune_idempotent(map: Map<u32, Seq<(u32, Seq<u32>)>>)
    ensures
        pruned(pruned(map)) == pruned(map),
{
    assert(pruned(pruned(map)) =~= pruned(map));
}

/// A batch is empty.
pub open spec fn no_materials(map: Map<u32, Seq<(u32, Seq<u32>)>>) -> bool {
    forall|material: u32| !map.contains_key(material)
}

/// One mesh with its instances.
#[derive(Debug)]
pub struct Leaf {
    pub mesh: u32,
    pub instances: Vec<u32>,
}

impl View for Leaf {
    type V = (u32, Seq<u32>);

    open spec fn view(&self) -> (u32, Seq<u32>) {
        (self.mesh, self.instances@)
    }
}

/// One material with the leaves of its meshes.
#[derive(Debug)]
pub struct Branch {
    pub material: u32,
    pub leaves: Vec<Leaf>,
}

/// The leaves of a list, as specifications see them.
pub open spec fn leaf_views(leaves: Seq<Leaf>) -> Seq<(u32, Seq<u32>)> {
    leaves.map_values(|l: Leaf| l@)
}

/// `branches` hold every material of `map` once, each with its leaves.
pub open spec fn branches_match(branches: Seq<Branch>, map: Map<u32, Seq<(u32, Seq<u32>)>>) -> bool {
    &&& forall|i: int|
        0 <= i < branches.len() ==> map.contains_key((#[trigger] branches[i]).material)
            && leaf_views(branches[i].leaves@) == map[branches[i].material]
    &&& forall|i: int, j: int|
        0 <= i < j < branches.len() ==> (#[trigger] branches[i]).material
            != (#[trigger] branches[j]).material
    &&& forall|material: u32| #[trigger]
        map.contains_key(material) ==> exists|i: int|
            0 <= i < branches.len() && (#[trigger] branches[i]).material == material
}

/// `Default::default` of `TwoLevelBatch`: a batch that knows no material and has counted nothing.
#[verifier::external_body]
fn unordered_new() -> (batch: amethyst_rendy::batch::TwoLevelBatch<u32, u32, Vec<u32>>)
    ensures
        no_materials(unordered_map(batch)),
        unordered_count(batch) == 0,
{
    Default::default()
}

/// `TwoLevelBatch::clear_inner`: every material is kept, without leaves; the count is 0.
#[verifier::external_body]
fn unordered_clear(batch: &mut amethyst_rendy::batch::TwoLevelBatch<u32, u32, Vec<u32>>)
    ensures
        unordered_map(*final(batch)) == cleared(unordered_map(*old(batch))),
        unordered_count(*final(batch)) == 0,
{
    batch.clear_inner()
}

/// `TwoLevelBatch::prune`: the materials without leaves are removed; the count stays.
#[verifier::external_body]
fn unordered_prune(batch: &mut amethyst_rendy::batch::TwoLevelBatch<u32, u32, Vec<u32>>)
    ensures
        unordered_map(*final(batch)) == pruned(unordered_map(*old(batch))),
        unordered_count(*final(batch)) == unordered_count(*old(batch)),
{
    batch.prune()
}

/// `TwoLevelBatch::insert`: the data joins the first leaf of the mesh among
/// the first eight leaves of the material, else it becomes a new leaf of
/// the material; every instance is counted.
#[verifier::external_body]
fn unordered_insert(
    batch: &mut amethyst_rendy::batch::TwoLevelBatch<u32, u32, Vec<u32>>,
    material: u32,
    mesh: u32,
    data: Vec<u32>,
)
    requires
        unordered_count(*old(batch)) + data@.len() <= usize::MAX,
    ensures
        unordered_map(*final(batch)) == insert_map(unordered_map(*old(batch)), material, mesh, data@),
        unordered_count(*final(batch)) == unordered_count(*old(batch)) + data@.len(),
{
    batch.insert(material, mesh, data)
}

/// `TwoLevelBatch::count`: the number of instances counted.
#[verifier::external_body]
fn unordered_counted(batch: &amethyst_rendy::batch::TwoLevelBatch<u32, u32, Vec<u32>>) -> (count:
    usize)
    ensures
        count == unordered_count(*batch),
{
    batch.count()
}

/// `TwoLevelBatch::iter`: every material once, in no stated order, each
/// with copies of its leaves in their order.
#[verifier::external_body]
fn unordered_branches(batch: &amethyst_rendy::batch::TwoLevelBatch<u32, u32, Vec<u32>>) -> (branches:
    Vec<Branch>)
    ensures
        branches_match(branches@, unordered_map(*batch)),
{
    batch.iter().map(
        |(material, leaves)|
            Branch {
                material: *material,
                leaves: leaves.map(
                    |(mesh, instances)| Leaf { mesh: *mesh, instances: instances.clone() },
                ).collect(),
            },
    ).collect()
}

/// A leaf with the given mesh is among the leaves.
pub open spec fn has_leaf(leaves: Seq<(u32, Seq<u32>)>, mesh: u32) -> bool {
    exists|i: int| 0 <= i < leaves.len() && (#[trigger] leaves[i]).0 == mesh
}

/// The keys `(material, mesh)` of the leaves of a batch.
pub open spec fn map_keys(map: Map<u32, Seq<(u32, Seq<u32>)>>) -> Set<(u32, u32)> {
    Set::new(|key: (u32, u32)| map.contains_key(key.0) && has_leaf(map[key.0], key.1))
}

proof fn lemma_first_slot_is_leaf(leaves: Seq<(u32, Seq<u32>)>, mesh: u32, from: int)
    requires
        0 <= from,
    ensures
        first_slot(leaves, mesh, from) >= 0 ==> from <= first_slot(leaves, mesh, from)
            < leaves.len() && leaves[first_slot(leaves, mesh, from)].0 == mesh,
        first_slot(leaves, mesh, from) >= -1,
    decreases leaves.len() - from,
{
    if from < leaves.len() && from < 8 && leaves[from].0 != mesh {
        lemma_first_slot_is_leaf(leaves, mesh, from + 1);
    }
}

/// Inserting keeps the meshes of the leaves and adds the mesh of the insertion.
pub proof fn lemma_insert_leaf_keys(
    leaves: Seq<(u32, Seq<u32>)>,
    mesh: u32,
    data: Seq<u32>,
    other: u32,
)
    ensures
        has_leaf(insert_leaf(leaves, mesh, data), other) == (other == mesh || has_leaf(
            leaves,
            other,
        )),
{
    let after = insert_leaf(leaves, mesh, data);
    let slot = first_slot(leaves, mesh, 0);
    lemma_first_slot_is_leaf(leaves, mesh, 0);
    if slot >= 0 {
        assert(after[slot].0 == mesh);
        if has_leaf(leaves, other) {
            let i = choose|i: int| 0 <= i < leaves.len() && (#[trigger] leaves[i]).0 == other;
            assert(after[i].0 == other);
        }
        if has_leaf(after, other) {
            let i = choose|i: int| 0 <= i < after.len() && (#[trigger] after[i]).0 == other;
            if i != slot {
                assert(leaves[i].0 == other);
            } else {
                assert(leaves[slot].0 == mesh);
            }
        }
    } else {
        assert(after[leaves.len() as int].0 == mesh);
        if has_leaf(leaves, other) {
            let i = choose|i: int| 0 <= i < leaves.len() && (#[trigger] leaves[i]).0 == other;
            assert(after[i].0 == other);
        }
        if has_leaf(after, other) {
            let i = choose|i: int| 0 <= i < after.len() && (#[trigger] after[i]).0 == other;
            if i < leaves.len() {
                assert(leaves[i].0 == other);
            }
        }
    }
}

/// Inserting adds the key of the insertion to the keys of the batch and takes none away.
pub proof fn lemma_insert_keys(
    map: Map<u32, Seq<(u32, Seq<u32>)>>,
    material: u32,
    mesh: u32,
    data: Seq<u32>,
)
    ensures
        map_keys(insert_map(map, material, mesh, data)) == map_keys(map).insert((material, mesh)),
{
    let after = insert_map(map, material, mesh, data);
    assert forall|key: (u32, u32)|
        map_keys(after).contains(key) == map_keys(map).insert((material, mesh)).contains(
            key,
        ) by {
        if key.0 == material {
            if map.contains_key(material) {
                lemma_insert_leaf_keys(map[material], mesh, data, key.1);
            } else {
                let leaves = seq![(mesh, data)];
                assert(leaves[0].0 == mesh);
                if has_leaf(leaves, key.1) {
                    let i = choose|i: int| 0 <= i < leaves.len() && (#[trigger] leaves[i]).0 == key.1;
                    assert(i == 0);
                }
            }
        }
    }
    assert(map_keys(after) =~= map_keys(map).insert((material, mesh)));
}

/// A cleared batch has no keys, and pruning keeps the keys.
pub proof fn lemma_clear_and_prune_keys(map: Map<u32, Seq<(u32, Seq<u32>)>>)
    ensures
        map_keys(cleared(map)) == Set::<(u32, u32)>::empty(),
        map_keys(pruned(map)) == map_keys(map),
{
    assert(map_keys(cleared(map)) =~= Set::<(u32, u32)>::empty());
    assert(map_keys(pruned(map)) =~= map_keys(map));
}

/// Instance batch that coalesces the instances of a key wherever they were inserted.
pub struct UnorderedBatch {
    inner: amethyst_rendy::batch::TwoLevelBatch<u32, u32, Vec<u32>>,
    keys: Vec<(u32, u32)>,
    previous: Vec<(u32, u32)>,
}

impl View for UnorderedBatch {
    type V = Map<u32, Seq<(u32, Seq<u32>)>>;

    closed spec fn view(&self) -> Map<u32, Seq<(u32, Seq<u32>)>> {
        unordered_map(self.inner)
    }
}

fn holds_key(keys: &Vec<(u32, u32)>, material: u32, mesh: u32) -> (held: bool)
    ensures
        held == keys@.contains((material, mesh)),
{
    let mut i: usize = 0;
    while i < keys.len()
        invariant
            i <= keys@.len(),
            forall|j: int| 0 <= j < i ==> keys@[j] != (material, mesh),
        decreases keys@.len() - i,
    {
        if keys[i].0 == material && keys[i].1 == mesh {
            assert(keys@[i as int] == (material, mesh));
            return true;
        }
        i += 1;
    }
    false
}

fn holds_all(keys: &Vec<(u32, u32)>, others: &Vec<(u32, u32)>) -> (held: bool)
    ensures
        held == others@.to_set().subset_of(keys@.to_set()),
{
    let mut i: usize = 0;
    while i < others.len()
        invariant
            i <= others@.len(),
            forall|j: int| 0 <= j < i ==> keys@.contains(#[trigger] others@[j]),
        decreases others@.len() - i,
    {
        if !holds_key(keys, others[i].0, others[i].1) {
            assert(others@.to_set().contains(others@[i as int]));
            assert(!keys@.to_set().contains(others@[i as int]));
            return false;
        }
        i += 1;
    }
    assert forall|key: (u32, u32)| others@.to_set().contains(key) implies keys@.to_set().contains(
        key,
    ) by {
        let j = choose|j: int| 0 <= j < others@.len() && others@[j] == key;
        assert(keys@.contains(others@[j]));
    }
    true
}

impl UnorderedBatch {
    /// Number of instances inserted since the frame began.
    pub closed spec fn counted(&self) -> nat {
        unordered_count(self.inner)
    }

    /// The keys `(material, mesh)` of the leaves that the batch held at the
    /// end of the frame before.
    pub closed spec fn previous_keys(&self) -> Set<(u32, u32)> {
        self.previous@.to_set()
    }

    /// The batch knows the keys of its leaves. Every batch that was made
    /// by `new` is well formed.
    pub closed spec fn well_formed(&self) -> bool {
        self.keys@.to_set() == map_keys(self@)
    }

    /// A batch that knows no material and has seen no frame.
    pub fn new() -> (batch: UnorderedBatch)
        ensures
            no_materials(batch@),
            batch.counted() == 0,
            batch.previous_keys() == Set::<(u32, u32)>::empty(),
            batch.well_formed(),
    {
        let batch = UnorderedBatch {
            inner: unordered_new(),
            keys: Vec::new(),
            previous: Vec::new(),
        };
        assert(batch.keys@.to_set() =~= map_keys(batch@));
        assert(batch.previous@.to_set() =~= Set::<(u32, u32)>::empty());
        batch
    }

    /// Starts a frame: remembers the keys of the frame before; the
    /// materials stay known, their leaves go.
    pub fn begin_frame(&mut self)
        requires
            old(self).well_formed(),
        ensures
            final(self)@ == cleared(old(self)@),
            final(self).counted() == 0,
            final(self).previous_keys() == map_keys(old(self)@),
            final(self).well_formed(),
    {
        proof {
            lemma_clear_and_prune_keys(self@);
        }
        unordered_clear(&mut self.inner);
        let mut keys: Vec<(u32, u32)> = Vec::new();
        std::mem::swap(&mut keys, &mut self.keys);
        self.previous = keys;
        assert(self.keys@.to_set() =~= Set::<(u32, u32)>::empty());
    }

    /// Inserts instances under `(material, mesh)`: they join the first leaf
    /// of the mesh among the first eight leaves of the material, else they
    /// become a new leaf of the material.
    pub fn insert(&mut self, material: u32, mesh: u32, instances: Vec<u32>)
        requires
            old(self).well_formed(),
            old(self).counted() + instances@.len() <= usize::MAX,
        ensures
            final(self)@ == insert_map(old(self)@, material, mesh, instances@),
            final(self).counted() == old(self).counted() + instances@.len(),
            final(self).previous_keys() == old(self).previous_keys(),
            final(self).well_formed(),
    {
        proof {
            lemma_insert_keys(self@, material, mesh, instances@);
        }
        unordered_insert(&mut self.inner, material, mesh, instances);
        let ghost before = self.keys@;
        if !holds_key(&self.keys, material, mesh) {
            self.keys.push((material, mesh));
            assert(self.keys@.to_set() =~= before.to_set().insert((material, mesh))) by {
                assert forall|key: (u32, u32)|
                    self.keys@.to_set().contains(key) == before.to_set().insert(
                        (material, mesh),
                    ).contains(key) by {
                    if self.keys@.contains(key) {
                        let j = choose|j: int| 0 <= j < self.keys@.len() && self.keys@[j] == key;
                        if j < before.len() {
                            assert(before[j] == key);
                        }
                    }
                    if before.contains(key) {
                        let j = choose|j: int| 0 <= j < before.len() && before[j] == key;
                        assert(self.keys@[j] == key);
                    }
                    if key == (material, mesh) {
                        assert(self.keys@[before.len() as int] == key);
                    }
                }
            }
        } else {
            assert(before.to_set() =~= before.to_set().insert((material, mesh)));
        }
    }

    /// Inserts instances as `insert` does, unless the count of instances
    /// would not fit a `usize`: then the batch is left as it is. Returns
    /// whether the instances were inserted.
    pub fn try_insert(&mut self, material: u32, mesh: u32, instances: Vec<u32>) -> (inserted: bool)
        requires
            old(self).well_formed(),
        ensures
            inserted == (old(self).counted() + instances@.len() <= usize::MAX),
            inserted ==> final(self)@ == insert_map(old(self)@, material, mesh, instances@),
            inserted ==> final(self).counted() == old(self).counted() + instances@.len(),
            !inserted ==> final(self)@ == old(self)@ && final(self).counted() == old(
                self,
            ).counted(),
            final(self).previous_keys() == old(self).previous_keys(),
            final(self).well_formed(),
    {
        let count = self.count();
        if instances.len() <= usize::MAX - count {
            self.insert(material, mesh, instances);
            true
        } else {
            false
        }
    }

    /// Removes the materials that have no leaves.
    pub fn prune(&mut self)
        requires
            old(self).well_formed(),
        ensures
            final(self)@ == pruned(old(self)@),
            final(self).counted() == old(self).counted(),
            final(self).previous_keys() == old(self).previous_keys(),
            final(self).well_formed(),
    {
        proof {
            lemma_clear_and_prune_keys(self@);
        }
        unordered_prune(&mut self.inner);
    }

    /// Number of instances inserted since the frame began.
    pub fn count(&self) -> (count: usize)
        ensures
            count == self.counted(),
    {
        unordered_counted(&self.inner)
    }

    /// Every material of the batch once, in no stated order, each with its leaves.
    pub fn groups(&self) -> (branches: Vec<Branch>)
        ensures
            branches_match(branches@, self@),
    {
        unordered_branches(&self.inner)
    }

    /// Whether the keys of the leaves differ from those of the frame
    /// before: a leaf came or went. A leaf that only holds more or fewer
    /// instances than before is no change.
    pub fn changed(&self) -> (changed: bool)
        requires
            self.well_formed(),
        ensures
            changed == (map_keys(self@) != self.previous_keys()),
    {
        let same = holds_all(&self.keys, &self.previous) && holds_all(&self.previous, &self.keys);
        proof {
            if same {
                assert(self.keys@.to_set() =~= self.previous@.to_set());
            }
        }
        !same
    }
}

/// Inserting under a material that has at most eight leaves never makes a
/// second leaf for a mesh: the instances of a key stay in one leaf.
pub proof fn lemma_insert_coalesces(leaves: Seq<(u32, Seq<u32>)>, mesh: u32, data: Seq<u32>, at: int)
    requires
        0 <= at < leaves.len(),
        at < 8,
        leaves[at].0 == mesh,
    ensures
        insert_leaf(leaves, mesh, data).len() == leaves.len(),
        0 <= first_slot(leaves, mesh, 0) <= at,
{
    lemma_first_slot_finds(leaves, mesh, 0, at);
}

proof fn lemma_first_slot_finds(leaves: Seq<(u32, Seq<u32>)>, mesh: u32, from: int, at: int)
    requires
        0 <= from <= at < leaves.len(),
        at < 8,
        leaves[at].0 == mesh,
    ensures
        from <= first_slot(leaves, mesh, from) <= at,
    decreases at - from,
{
    if leaves[from].0 != mesh {
        lemma_first_slot_finds(leaves, mesh, from + 1, at);
    }
}

} // verus!

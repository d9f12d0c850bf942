//! Merging the reflections of several stages into one pipeline layout.

use crate::bytecode::Stage;
use crate::error::ShaderError;
use vstd::prelude::*;

verus! {

/// The kind of resource a descriptor binds.
#[derive(PartialEq, Eq, Structural, Clone, Copy, Debug)]
pub enum DescriptorKind {
    Sampler,
    CombinedImageSampler,
    SampledImage,
    StorageImage,
    UniformTexelBuffer,
    StorageTexelBuffer,
    UniformBuffer,
    StorageBuffer,
    UniformBufferDynamic,
    StorageBufferDynamic,
    InputAttachment,
}

/// A descriptor at (set, binding), of a kind, visible to the stages whose bits
/// are in `stages`.
#[derive(PartialEq, Eq, Structural, Clone, Copy, Debug)]
pub struct DescriptorBinding {
    pub set: u32,
    pub binding: u32,
    pub kind: DescriptorKind,
    pub stages: u32,
}

/// A range of push-constant bytes, visible to the stages whose bits are in
/// `stages`.
#[derive(PartialEq, Eq, Structural, Clone, Copy, Debug)]
pub struct PushConstantRange {
    pub stages: u32,
    pub offset: u32,
    pub size: u32,
}

/// A vertex input attribute.
#[derive(Debug)]
pub struct Attribute {
    pub name: String,
    pub location: u32,
    pub format: u32,
}

impl View for Attribute {
    type V = (Seq<char>, u32, u32);

    open spec fn view(&self) -> (Seq<char>, u32, u32) {
        (self.name@, self.location, self.format)
    }
}

/// What reflecting one stage's bytecode found.
#[derive(Debug)]
pub struct StageReflection {
    pub stage: Stage,
    pub attributes: Vec<Attribute>,
    pub bindings: Vec<DescriptorBinding>,
    pub push_constants: Vec<PushConstantRange>,
}

/// The layout of a whole pipeline: the vertex stage's input attributes, and
/// the descriptors and push-constant ranges of all stages.
#[derive(Debug)]
pub struct SpirvReflection {
    pub attributes: Vec<Attribute>,
    pub bindings: Vec<DescriptorBinding>,
    pub push_constants: Vec<PushConstantRange>,
}

/// How often a vertex attribute advances: per vertex or per instance.
#[derive(PartialEq, Eq, Structural, Clone, Copy, Debug)]
pub enum VertexRate {
    Vertex,
    Instance,
}

/// A vertex input attribute tagged with its step rate.
#[derive(Debug)]
pub struct RatedAttribute {
    pub attribute: Attribute,
    pub rate: VertexRate,
}

fn copy_attribute(a: &Attribute) -> (r: Attribute)
    ensures
        r@ == a@,
{
    Attribute { name: a.name.clone(), location: a.location, format: a.format }
}

impl SpirvReflection {
    /// The attributes at positions `start` up to `end` (exclusive), each
    /// tagged with `rate`.
    pub fn attributes_range(&self, start: usize, end: usize, rate: VertexRate) -> (r: Vec<
        RatedAttribute,
    >)
        requires
            start <= end <= self.attributes@.len(),
        ensures
            r@.len() == end - start,
            forall|i: int|
                0 <= i < r@.len() ==> (#[trigger] r@[i]).attribute@ == self.attributes@[start
                    + i]@ && r@[i].rate == rate,
    {
        let mut out: Vec<RatedAttribute> = Vec::new();
        let mut k: usize = start;
        while k < end
            invariant
                start <= k <= end <= self.attributes@.len(),
                out@.len() == k - start,
                forall|i: int|
                    0 <= i < out@.len() ==> (#[trigger] out@[i]).attribute@
                        == self.attributes@[start + i]@ && out@[i].rate == rate,
            decreases end - k,
        {
            out.push(RatedAttribute { attribute: copy_attribute(&self.attributes[k]), rate });
            k = k + 1;
        }
        out
    }

    /// The first attribute with the given name, tagged with `rate`, or
    /// `None` when no attribute has that name.
    pub fn attribute_named(&self, name: &str, rate: VertexRate) -> (r: Option<RatedAttribute>)
        ensures
            r is None <==> forall|i: int|
                0 <= i < self.attributes@.len() ==> (#[trigger] self.attributes@[i]).name@ != name@,
            r matches Some(a) ==> exists|i: int|
                0 <= i < self.attributes@.len() && (#[trigger] self.attributes@[i])@ == a.attribute@
                    && a.attribute.name@ == name@ && a.rate == rate && forall|j: int|
                    0 <= j < i ==> (#[trigger] self.attributes@[j]).name@ != name@,
    {
        let wanted = name.to_owned();
        let mut k: usize = 0;
        while k < self.attributes.len()
            invariant
                k <= self.attributes@.len(),
                wanted@ == name@,
                forall|i: int| 0 <= i < k ==> (#[trigger] self.attributes@[i]).name@ != name@,
            decreases self.attributes@.len() - k,
        {
            if self.attributes[k].name == wanted {
                let a = copy_attribute(&self.attributes[k]);
                assert(self.attributes@[k as int]@ == a@);
                return Some(RatedAttribute { attribute: a, rate });
            }
            k = k + 1;
        }
        None
    }
}

/// Two descriptors at the same (set, binding).
pub open spec fn same_slot(a: DescriptorBinding, b: DescriptorBinding) -> bool {
    a.set == b.set && a.binding == b.binding
}

/// `i` is the first place in `acc` at the slot of `d`.
pub open spec fn first_slot(acc: Seq<DescriptorBinding>, d: DescriptorBinding, i: int) -> bool {
    &&& 0 <= i < acc.len()
    &&& same_slot(acc[i], d)
    &&& forall|j: int| 0 <= j < i ==> !same_slot(#[trigger] acc[j], d)
}

/// Adds one descriptor to merged ones: a new slot is appended; at a slot
/// already taken the kinds must agree and the stage bits are joined, else
/// there is a conflict (`None`).
pub open spec fn merge_binding(acc: Seq<DescriptorBinding>, d: DescriptorBinding) -> Option<
    Seq<DescriptorBinding>,
> {
    if exists|i: int| first_slot(acc, d, i) {
        let i = choose|i: int| first_slot(acc, d, i);
        if acc[i].kind == d.kind {
            Some(acc.update(i, DescriptorBinding { stages: acc[i].stages | d.stages, ..acc[i] }))
        } else {
            None
        }
    } else {
        Some(acc.push(d))
    }
}

/// Adds items one after another, from the first, with `step`; `None` once a
/// step fails.
pub open spec fn merge_into<A>(
    step: spec_fn(Seq<A>, A) -> Option<Seq<A>>,
    acc: Option<Seq<A>>,
    ds: Seq<A>,
) -> Option<Seq<A>>
    decreases ds.len(),
{
    if ds.len() == 0 {
        acc
    } else {
        match merge_into(step, acc, ds.drop_last()) {
            Some(a) => step(a, ds.last()),
            None => None,
        }
    }
}

/// Merges the items of stages one after another, from the first.
pub open spec fn merge_stages<A>(step: spec_fn(Seq<A>, A) -> Option<Seq<A>>, rs: Seq<Seq<A>>) -> Option<
    Seq<A>,
>
    decreases rs.len(),
{
    if rs.len() == 0 {
        Some(Seq::empty())
    } else {
        merge_into(step, merge_stages(step, rs.drop_last()), rs.last())
    }
}

/// The step that adds one descriptor.
pub open spec fn binding_step() -> spec_fn(Seq<DescriptorBinding>, DescriptorBinding) -> Option<
    Seq<DescriptorBinding>,
> {
    |acc: Seq<DescriptorBinding>, d: DescriptorBinding| merge_binding(acc, d)
}

/// The merged descriptors of stages, or `None` on a conflict.
pub open spec fn merged_bindings(rs: Seq<Seq<DescriptorBinding>>) -> Option<Seq<DescriptorBinding>> {
    merge_stages(binding_step(), rs)
}

/// Two ranges share at least one byte.
pub open spec fn overlaps(a: PushConstantRange, b: PushConstantRange) -> bool {
    a.offset < b.offset + b.size && b.offset < a.offset + a.size
}

/// `i` is the first range in `acc` that shares a byte with `p`.
pub open spec fn first_overlap(acc: Seq<PushConstantRange>, p: PushConstantRange, i: int) -> bool {
    &&& 0 <= i < acc.len()
    &&& overlaps(acc[i], p)
    &&& forall|j: int| 0 <= j < i ==> !overlaps(#[trigger] acc[j], p)
}

/// Adds one push-constant range to merged ones: a range apart from all is
/// appended; the same range as one already there joins its stage bits; a
/// range that overlaps another differently is a conflict (`None`).
pub open spec fn merge_range(acc: Seq<PushConstantRange>, p: PushConstantRange) -> Option<
    Seq<PushConstantRange>,
> {
    if exists|i: int| first_overlap(acc, p, i) {
        let i = choose|i: int| first_overlap(acc, p, i);
        if acc[i].offset == p.offset && acc[i].size == p.size {
            Some(acc.update(i, PushConstantRange { stages: acc[i].stages | p.stages, ..acc[i] }))
        } else {
            None
        }
    } else {
        Some(acc.push(p))
    }
}

/// The step that adds one push-constant range.
pub open spec fn range_step() -> spec_fn(Seq<PushConstantRange>, PushConstantRange) -> Option<
    Seq<PushConstantRange>,
> {
    |acc: Seq<PushConstantRange>, p: PushConstantRange| merge_range(acc, p)
}

/// The merged push-constant ranges of stages, or `None` on a conflict.
pub open spec fn merged_ranges(rs: Seq<Seq<PushConstantRange>>) -> Option<Seq<PushConstantRange>> {
    merge_stages(range_step(), rs)
}

/// The push-constant ranges of each reflection.
pub open spec fn ranges_of(rs: Seq<StageReflection>) -> Seq<Seq<PushConstantRange>> {
    rs.map_values(|r: StageReflection| r.push_constants@)
}

/// The descriptors of each reflection.
pub open spec fn bindings_of(rs: Seq<StageReflection>) -> Seq<Seq<DescriptorBinding>> {
    rs.map_values(|r: StageReflection| r.bindings@)
}

proof fn lemma_merge_none<A>(step: spec_fn(Seq<A>, A) -> Option<Seq<A>>, ds: Seq<A>)
    ensures
        merge_into(step, None, ds) is None,
    decreases ds.len(),
{
    if ds.len() > 0 {
        lemma_merge_none(step, ds.drop_last());
    }
}

proof fn lemma_merge_prefix<A>(
    step: spec_fn(Seq<A>, A) -> Option<Seq<A>>,
    acc: Option<Seq<A>>,
    ds: Seq<A>,
    k: int,
)
    requires
        0 <= k <= ds.len(),
        merge_into(step, acc, ds.subrange(0, k)) is None,
    ensures
        merge_into(step, acc, ds) is None,
    decreases ds.len() - k,
{
    if k < ds.len() {
        assert(ds.subrange(0, k + 1).drop_last() =~= ds.subrange(0, k));
        lemma_merge_prefix(step, acc, ds, k + 1);
    } else {
        assert(ds.subrange(0, k) =~= ds);
    }
}

proof fn lemma_stages_prefix<A>(step: spec_fn(Seq<A>, A) -> Option<Seq<A>>, rs: Seq<Seq<A>>, k: int)
    requires
        0 <= k <= rs.len(),
        merge_stages(step, rs.subrange(0, k)) is None,
    ensures
        merge_stages(step, rs) is None,
    decreases rs.len() - k,
{
    if k < rs.len() {
        assert(rs.subrange(0, k + 1).drop_last() =~= rs.subrange(0, k));
        lemma_merge_none(step, rs[k]);
        lemma_stages_prefix(step, rs, k + 1);
    } else {
        assert(rs.subrange(0, k) =~= rs);
    }
}

/// Adds one descriptor to merged ones, as `merge_binding` says.
fn merge_binding_into(acc: &mut Vec<DescriptorBinding>, d: DescriptorBinding) -> (r: Result<
    (),
    ShaderError,
>)
    ensures
        merge_binding(old(acc)@, d) matches Some(m) ==> r is Ok && final(acc)@ == m,
        merge_binding(old(acc)@, d) is None ==> r == Err::<(), ShaderError>(
            ShaderError::ReflectionConflict,
        ),
{
    let mut i: usize = 0;
    while i < acc.len()
        invariant
            i <= acc@.len(),
            acc@ == old(acc)@,
            forall|j: int| 0 <= j < i ==> !same_slot(#[trigger] acc@[j], d),
        decreases acc@.len() - i,
    {
        let e = acc[i];
        if e.set == d.set && e.binding == d.binding {
            assert(first_slot(acc@, d, i as int));
            proof {
                let c = choose|c: int| first_slot(acc@, d, c);
                if c < i {
                    assert(!same_slot(acc@[c], d));
                } else if c > i {
                    assert(!same_slot(acc@[i as int], d));
                }
                assert(c == i);
            }
            if e.kind == d.kind {
                let merged = DescriptorBinding { stages: e.stages | d.stages, ..e };
                acc.set(i, merged);
                return Ok(());
            } else {
                return Err(ShaderError::ReflectionConflict);
            }
        }
        i = i + 1;
    }
    acc.push(d);
    Ok(())
}

fn copy_attributes(attrs: &Vec<Attribute>) -> (r: Vec<Attribute>)
    ensures
        r@.len() == attrs@.len(),
        forall|i: int| 0 <= i < attrs@.len() ==> #[trigger] r@[i]@ == attrs@[i]@,
{
    let mut out: Vec<Attribute> = Vec::new();
    let mut i: usize = 0;
    while i < attrs.len()
        invariant
            i <= attrs@.len(),
            out@.len() == i,
            forall|j: int| 0 <= j < i ==> #[trigger] out@[j]@ == attrs@[j]@,
        decreases attrs@.len() - i,
    {
        out.push(copy_attribute(&attrs[i]));
        i = i + 1;
    }
    out
}

/// The input attributes of the first vertex reflection, or none.
pub open spec fn vertex_attributes(rs: Seq<StageReflection>) -> Seq<(Seq<char>, u32, u32)> {
    if exists|i: int| 0 <= i < rs.len() && rs[i].stage == Stage::Vertex && forall|j: int|
        0 <= j < i ==> (#[trigger] rs[j]).stage != Stage::Vertex {
        let i = choose|i: int| 0 <= i < rs.len() && rs[i].stage == Stage::Vertex && forall|j: int|
            0 <= j < i ==> (#[trigger] rs[j]).stage != Stage::Vertex;
        rs[i].attributes@.map_values(|a: Attribute| a@)
    } else {
        Seq::empty()
    }
}

fn merge_bindings(reflections: &Vec<StageReflection>) -> (r: Result<Vec<DescriptorBinding>, ShaderError>)
    ensures
        r is Ok <==> merged_bindings(bindings_of(reflections@)) is Some,
        r is Err ==> r == Err::<Vec<DescriptorBinding>, ShaderError>(ShaderError::ReflectionConflict),
        r matches Ok(m) ==> Some(m@) == merged_bindings(bindings_of(reflections@)),
{
    let ghost rs = bindings_of(reflections@);
    let mut acc: Vec<DescriptorBinding> = Vec::new();
    let mut i: usize = 0;
    while i < reflections.len()
        invariant
            i <= reflections@.len(),
            rs == bindings_of(reflections@),
            merge_stages(binding_step(), rs.subrange(0, i as int)) == Some(acc@),
        decreases reflections@.len() - i,
    {
        let ds = &reflections[i].bindings;
        let ghost start = acc@;
        assert(rs.subrange(0, i + 1).drop_last() =~= rs.subrange(0, i as int));
        assert(rs[i as int] == ds@);
        assert(merge_stages(binding_step(), rs.subrange(0, i + 1)) == merge_into(binding_step(), Some(start), ds@));
        let mut j: usize = 0;
        while j < ds.len()
            invariant
                j <= ds@.len(),
                i < reflections@.len(),
                ds@ == rs[i as int],
                rs == bindings_of(reflections@),
                merge_stages(binding_step(), rs.subrange(0, i as int)) == Some(start),
                merge_stages(binding_step(), rs.subrange(0, i + 1)) == merge_into(binding_step(), Some(start), ds@),
                merge_into(binding_step(), Some(start), ds@.subrange(0, j as int)) == Some(acc@),
            decreases ds@.len() - j,
        {
            assert(ds@.subrange(0, j + 1).drop_last() =~= ds@.subrange(0, j as int));
            let res = merge_binding_into(&mut acc, ds[j]);
            if res.is_err() {
                proof {
                    lemma_merge_prefix(binding_step(), Some(start), ds@, j + 1);
                    lemma_stages_prefix(binding_step(), rs, i + 1);
                }
                return Err(ShaderError::ReflectionConflict);
            }
            j = j + 1;
        }
        assert(ds@.subrange(0, j as int) =~= ds@);
        i = i + 1;
    }
    assert(rs.subrange(0, i as int) =~= rs);
    Ok(acc)
}

/// Adds one push-constant range to merged ones, as `merge_range` says.
fn merge_range_into(acc: &mut Vec<PushConstantRange>, d: PushConstantRange) -> (r: Result<
    (),
    ShaderError,
>)
    ensures
        merge_range(old(acc)@, d) matches Some(m) ==> r is Ok && final(acc)@ == m,
        merge_range(old(acc)@, d) is None ==> r == Err::<(), ShaderError>(
            ShaderError::ReflectionConflict,
        ),
{
    let mut i: usize = 0;
    while i < acc.len()
        invariant
            i <= acc@.len(),
            acc@ == old(acc)@,
            forall|j: int| 0 <= j < i ==> !overlaps(#[trigger] acc@[j], d),
        decreases acc@.len() - i,
    {
        let e = acc[i];
        if (e.offset as u64) < (d.offset as u64) + (d.size as u64) && (d.offset as u64) < (e.offset as u64) + (e.size as u64) {
            assert(first_overlap(acc@, d, i as int));
            proof {
                let c = choose|c: int| first_overlap(acc@, d, c);
                if c < i {
                    assert(!overlaps(acc@[c], d));
                } else if c > i {
                    assert(!overlaps(acc@[i as int], d));
                }
                assert(c == i);
            }
            if e.offset == d.offset && e.size == d.size {
                let merged = PushConstantRange { stages: e.stages | d.stages, ..e };
                acc.set(i, merged);
                return Ok(());
            } else {
                return Err(ShaderError::ReflectionConflict);
            }
        }
        i = i + 1;
    }
    acc.push(d);
    Ok(())
}

fn merge_ranges(reflections: &Vec<StageReflection>) -> (r: Result<Vec<PushConstantRange>, ShaderError>)
    ensures
        r is Ok <==> merged_ranges(ranges_of(reflections@)) is Some,
        r is Err ==> r == Err::<Vec<PushConstantRange>, ShaderError>(ShaderError::ReflectionConflict),
        r matches Ok(m) ==> Some(m@) == merged_ranges(ranges_of(reflections@)),
{
    let ghost rs = ranges_of(reflections@);
    let mut acc: Vec<PushConstantRange> = Vec::new();
    let mut i: usize = 0;
    while i < reflections.len()
        invariant
            i <= reflections@.len(),
            rs == ranges_of(reflections@),
            merge_stages(range_step(), rs.subrange(0, i as int)) == Some(acc@),
        decreases reflections@.len() - i,
    {
        let ds = &reflections[i].push_constants;
        let ghost start = acc@;
        assert(rs.subrange(0, i + 1).drop_last() =~= rs.subrange(0, i as int));
        assert(rs[i as int] == ds@);
        assert(merge_stages(range_step(), rs.subrange(0, i + 1)) == merge_into(range_step(), Some(start), ds@));
        let mut j: usize = 0;
        while j < ds.len()
            invariant
                j <= ds@.len(),
                i < reflections@.len(),
                ds@ == rs[i as int],
                rs == ranges_of(reflections@),
                merge_stages(range_step(), rs.subrange(0, i as int)) == Some(start),
                merge_stages(range_step(), rs.subrange(0, i + 1)) == merge_into(range_step(), Some(start), ds@),
                merge_into(range_step(), Some(start), ds@.subrange(0, j as int)) == Some(acc@),
            decreases ds@.len() - j,
        {
            assert(ds@.subrange(0, j + 1).drop_last() =~= ds@.subrange(0, j as int));
            let res = merge_range_into(&mut acc, ds[j]);
            if res.is_err() {
                proof {
                    lemma_merge_prefix(range_step(), Some(start), ds@, j + 1);
                    lemma_stages_prefix(range_step(), rs, i + 1);
                }
                return Err(ShaderError::ReflectionConflict);
            }
            j = j + 1;
        }
        assert(ds@.subrange(0, j as int) =~= ds@);
        i = i + 1;
    }
    assert(rs.subrange(0, i as int) =~= rs);
    Ok(acc)
}

fn first_vertex_attributes(reflections: &Vec<StageReflection>) -> (r: Vec<Attribute>)
    ensures
        r@.map_values(|a: Attribute| a@) == vertex_attributes(reflections@),
{
    let mut k: usize = 0;
    while k < reflections.len()
        invariant
            k <= reflections@.len(),
            forall|j: int| 0 <= j < k ==> (#[trigger] reflections@[j]).stage != Stage::Vertex,
        decreases reflections@.len() - k,
    {
        if reflections[k].stage == Stage::Vertex {
            let attributes = copy_attributes(&reflections[k].attributes);
            proof {
                let rr = reflections@;
                assert(0 <= k < rr.len() && rr[k as int].stage == Stage::Vertex);
                let c = choose|c: int| 0 <= c < rr.len() && rr[c].stage == Stage::Vertex && forall|j: int|
                    0 <= j < c ==> (#[trigger] rr[j]).stage != Stage::Vertex;
                if c < k {
                } else if c > k {
                    assert(rr[k as int].stage != Stage::Vertex);
                }
                assert(attributes@.map_values(|a: Attribute| a@) =~= rr[k as int].attributes@.map_values(|a: Attribute| a@));
            }
            return attributes;
        }
        k = k + 1;
    }
    let none: Vec<Attribute> = Vec::new();
    assert(none@.map_values(|a: Attribute| a@) =~= Seq::<(Seq<char>, u32, u32)>::empty());
    none
}

/// Merges the reflections of several stages: the input attributes come from
/// the vertex stage alone; descriptors at one (set, binding) must agree on
/// their kind and are joined into one visible to all their stages; the same
/// push-constant range is joined likewise, and ranges that overlap otherwise
/// may not. A disagreement fails with `ReflectionConflict`.
pub fn merge(reflections: &Vec<StageReflection>) -> (r: Result<SpirvReflection, ShaderError>)
    ensures
        r is Ok <==> merged_bindings(bindings_of(reflections@)) is Some && merged_ranges(
            ranges_of(reflections@),
        ) is Some,
        r is Err ==> r == Err::<SpirvReflection, ShaderError>(ShaderError::ReflectionConflict),
        r matches Ok(m) ==> Some(m.bindings@) == merged_bindings(bindings_of(reflections@)),
        r matches Ok(m) ==> Some(m.push_constants@) == merged_ranges(ranges_of(reflections@)),
        r matches Ok(m) ==> m.attributes@.map_values(|a: Attribute| a@) == vertex_attributes(
            reflections@,
        ),
{
    let bindings = match merge_bindings(reflections) {
        Ok(b) => b,
        Err(e) => {
            return Err(e);
        },
    };
    let push_constants = match merge_ranges(reflections) {
        Ok(p) => p,
        Err(e) => {
            return Err(e);
        },
    };
    let attributes = first_vertex_attributes(reflections);
    Ok(SpirvReflection { attributes, bindings, push_constants })
}

/// Two stages' descriptors at one (set, binding) merge into one descriptor
/// visible to both stages when their kinds agree, and conflict when they
/// differ.
pub proof fn lemma_shared_binding(a: DescriptorBinding, b: DescriptorBinding)
    requires
        same_slot(a, b),
    ensures
        a.kind == b.kind ==> merged_bindings(seq![seq![a], seq![b]]) == Some(
            seq![DescriptorBinding { stages: a.stages | b.stages, ..a }],
        ),
        a.kind != b.kind ==> merged_bindings(seq![seq![a], seq![b]]) is None,
{
    let rs = seq![seq![a], seq![b]];
    assert(rs.drop_last() =~= seq![seq![a]]);
    assert(rs.drop_last().drop_last() =~= Seq::<Seq<DescriptorBinding>>::empty());
    assert(seq![a].drop_last() =~= Seq::<DescriptorBinding>::empty());
    assert(seq![b].drop_last() =~= Seq::<DescriptorBinding>::empty());
    let e = Seq::<DescriptorBinding>::empty();
    assert(!(exists|i: int| first_slot(e, a, i)));
    assert(e.push(a) =~= seq![a]);
    assert(merge_stages(binding_step(), Seq::<Seq<DescriptorBinding>>::empty()) == Some(e));
    assert(merge_into(binding_step(), Some(e), Seq::<DescriptorBinding>::empty()) == Some(e));
    assert(merge_binding(e, a) == Some(seq![a]));
    assert(merge_into(binding_step(), Some(e), seq![a]) == Some(seq![a]));
    assert(merge_stages(binding_step(), seq![seq![a]]) == Some(seq![a]));
    assert(merge_into(binding_step(), Some(seq![a]), Seq::<DescriptorBinding>::empty()) == Some(seq![a]));
    assert(merge_stages(binding_step(), rs) == merge_binding(seq![a], b));
    assert(first_slot(seq![a], b, 0));
    let i = choose|i: int| first_slot(seq![a], b, i);
    assert(i == 0);
    if a.kind == b.kind {
        assert(seq![a].update(0, DescriptorBinding { stages: a.stages | b.stages, ..a }) =~= seq![
            DescriptorBinding { stages: a.stages | b.stages, ..a },
        ]);
    }
}

} // verus!

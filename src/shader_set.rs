//! The staged builder and the compiled, stage-indexed shader set.

use crate::bytecode::{copy_words, Stage};
use crate::device::{Device, LoggedDevice, ModuleHandle};
use crate::error::ShaderError;
use crate::reflect::{bindings_of, merge, merged_bindings, merged_ranges, ranges_of, vertex_attributes, Attribute, SpirvReflection, StageReflection};
use crate::shader::Shader;
use crate::storage::{
    after_dispose, is_entry_of, loaded_handle, new_module, spec_view, EntryPoint, ModuleState,
    ShaderStorage,
    Specialization,
};
use vstd::prelude::*;

verus! {

/// Optional specialization constants for each stage.
#[derive(Clone, Debug)]
pub struct SpecConstantSet {
    pub vertex: Option<Specialization>,
    pub fragment: Option<Specialization>,
    pub geometry: Option<Specialization>,
    pub hull: Option<Specialization>,
    pub domain: Option<Specialization>,
    pub compute: Option<Specialization>,
}

impl SpecConstantSet {
    /// The specialization given for a stage.
    pub open spec fn for_stage(&self, s: Stage) -> Option<Specialization> {
        match s {
            Stage::Vertex => self.vertex,
            Stage::Fragment => self.fragment,
            Stage::Geometry => self.geometry,
            Stage::Hull => self.hull,
            Stage::Domain => self.domain,
            Stage::Compute => self.compute,
        }
    }

    /// No specialization for any stage.
    pub fn new() -> (r: SpecConstantSet)
        ensures
            forall|s: Stage| #[trigger] r.for_stage(s) is None,
    {
        SpecConstantSet {
            vertex: None,
            fragment: None,
            geometry: None,
            hull: None,
            domain: None,
            compute: None,
        }
    }
}

impl Default for SpecConstantSet {
    fn default() -> (r: SpecConstantSet)
        ensures
            forall|s: Stage| #[trigger] r.for_stage(s) is None,
    {
        SpecConstantSet::new()
    }
}

/// Bytecode words and entry-point name for at most one shader per stage.
#[derive(Clone, Debug)]
pub struct ShaderSetBuilder {
    vertex: Option<(Vec<u32>, String)>,
    fragment: Option<(Vec<u32>, String)>,
    geometry: Option<(Vec<u32>, String)>,
    hull: Option<(Vec<u32>, String)>,
    domain: Option<(Vec<u32>, String)>,
    compute: Option<(Vec<u32>, String)>,
}

fn has_reflection(rs: &Vec<StageReflection>, s: Stage) -> (r: bool)
    ensures
        r == exists|m: int| 0 <= m < rs@.len() && (#[trigger] rs@[m]).stage == s,
{
    let mut i: usize = 0;
    while i < rs.len()
        invariant
            i <= rs@.len(),
            forall|m: int| 0 <= m < i ==> (#[trigger] rs@[m]).stage != s,
        decreases rs@.len() - i,
    {
        if rs[i].stage == s {
            assert(rs@[i as int].stage == s);
            return true;
        }
        i = i + 1;
    }
    false
}

/// The bytecode words of a builder slot, or none.
pub open spec fn words_of(slot: Option<(Seq<u32>, Seq<char>)>) -> Seq<u32> {
    match slot {
        Some((w, _)) => w,
        None => Seq::empty(),
    }
}

/// The view of a builder slot.
pub open spec fn slot_view(o: Option<(Vec<u32>, String)>) -> Option<(Seq<u32>, Seq<char>)> {
    match o {
        Some((w, e)) => Some((w@, e@)),
        None => None,
    }
}

impl ShaderSetBuilder {
    /// The bytecode and entry point given for a stage, if any.
    pub closed spec fn slot(&self, s: Stage) -> Option<(Seq<u32>, Seq<char>)> {
        slot_view(
            match s {
                Stage::Vertex => self.vertex,
                Stage::Fragment => self.fragment,
                Stage::Geometry => self.geometry,
                Stage::Hull => self.hull,
                Stage::Domain => self.domain,
                Stage::Compute => self.compute,
            },
        )
    }

    /// A vertex or a compute shader has been given.
    pub open spec fn has_required_stage(&self) -> bool {
        self.slot(Stage::Vertex) is Some || self.slot(Stage::Compute) is Some
    }

    /// `b` is this builder with `shader` given for `stage`, or the shader's
    /// failure when its bytecode cannot be had.
    pub open spec fn with_result<S: Shader>(
        &self,
        stage: Stage,
        shader: &S,
        r: Result<ShaderSetBuilder, S::Error>,
    ) -> bool {
        match shader.spirv_spec() {
            Ok(w) => r matches Ok(b) && b.slot(stage) == Some((w, shader.entry_spec())) && forall|
                t: Stage,
            |
                t != stage ==> #[trigger] b.slot(t) == self.slot(t),
            Err(e) => r == Err::<ShaderSetBuilder, S::Error>(e),
        }
    }

    /// `set` is what `build` makes of this builder and these specializations:
    /// a well-formed set with an unloaded record for each stage given.
    pub open spec fn built_into(&self, spec_constants: SpecConstantSet, set: ShaderSet) -> bool {
        &&& set.wf()
        &&& forall|s: Stage|
            fresh_storage(
                #[trigger] set.storage(s),
                self.slot(s),
                s,
                spec_view(spec_constants.for_stage(s)),
            )
    }

    /// Whether a vertex or a compute shader has been given.
    pub fn has_vertex_or_compute(&self) -> (r: bool)
        ensures
            r == self.has_required_stage(),
    {
        self.vertex.is_some() || self.compute.is_some()
    }

    /// The reflections are exactly one for each stage given: each is of a
    /// given stage, no two are of the same stage, and every given stage has
    /// one.
    pub open spec fn reflects_slots(&self, rs: Seq<StageReflection>) -> bool {
        &&& forall|i: int| 0 <= i < rs.len() ==> self.slot(#[trigger] rs[i].stage) is Some
        &&& forall|i: int, j: int|
            0 <= i < j < rs.len() ==> (#[trigger] rs[i]).stage != (#[trigger] rs[j]).stage
        &&& forall|s: Stage|
            #[trigger] self.slot(s) is Some ==> exists|i: int|
                0 <= i < rs.len() && (#[trigger] rs[i]).stage == s
    }

    /// Whether a shader has been given for a stage.
    pub fn has_slot(&self, s: Stage) -> (r: bool)
        ensures
            r == self.slot(s) is Some,
    {
        match s {
            Stage::Vertex => self.vertex.is_some(),
            Stage::Fragment => self.fragment.is_some(),
            Stage::Geometry => self.geometry.is_some(),
            Stage::Hull => self.hull.is_some(),
            Stage::Domain => self.domain.is_some(),
            Stage::Compute => self.compute.is_some(),
        }
    }

    fn stages_match(&self, rs: &Vec<StageReflection>) -> (r: bool)
        ensures
            r == self.reflects_slots(rs@),
    {
        let mut i: usize = 0;
        while i < rs.len()
            invariant
                i <= rs@.len(),
                forall|k: int| 0 <= k < i ==> self.slot(#[trigger] rs@[k].stage) is Some,
                forall|k: int, l: int|
                    0 <= k < l < i ==> (#[trigger] rs@[k]).stage != (#[trigger] rs@[l]).stage,
            decreases rs@.len() - i,
        {
            if !self.has_slot(rs[i].stage) {
                return false;
            }
            let mut j: usize = 0;
            while j < i
                invariant
                    j <= i < rs@.len(),
                    forall|k: int| 0 <= k < j ==> (#[trigger] rs@[k]).stage != rs@[i as int].stage,
                decreases i - j,
            {
                if rs[j].stage == rs[i].stage {
                    assert(rs@[j as int].stage == rs@[i as int].stage);
                    return false;
                }
                j = j + 1;
            }
            i = i + 1;
        }
        let all = [Stage::Vertex, Stage::Fragment, Stage::Geometry, Stage::Hull, Stage::Domain, Stage::Compute];
        let mut k: usize = 0;
        while k < 6
            invariant
                k <= 6,
                i == rs@.len(),
                all@ == seq![Stage::Vertex, Stage::Fragment, Stage::Geometry, Stage::Hull, Stage::Domain, Stage::Compute],
                forall|m: int| 0 <= m < rs@.len() ==> self.slot(#[trigger] rs@[m].stage) is Some,
                forall|m: int, l: int|
                    0 <= m < l < rs@.len() ==> (#[trigger] rs@[m]).stage != (#[trigger] rs@[l]).stage,
                forall|q: int|
                    0 <= q < k ==> (self.slot(#[trigger] all@[q]) is Some ==> exists|m: int|
                        0 <= m < rs@.len() && (#[trigger] rs@[m]).stage == all@[q]),
            decreases 6 - k,
        {
            let s = all[k];
            if self.has_slot(s) && !has_reflection(rs, s) {
                return false;
            }
            k = k + 1;
        }
        assert forall|s: Stage| #[trigger] self.slot(s) is Some implies exists|m: int|
            0 <= m < rs@.len() && (#[trigger] rs@[m]).stage == s by {
            match s {
                Stage::Vertex => assert(all@[0] == s),
                Stage::Fragment => assert(all@[1] == s),
                Stage::Geometry => assert(all@[2] == s),
                Stage::Hull => assert(all@[3] == s),
                Stage::Domain => assert(all@[4] == s),
                Stage::Compute => assert(all@[5] == s),
            }
        }
        true
    }

    /// Merges the reflections of the given stages' bytecode into one pipeline
    /// layout, as `merge` does. Fails with `NoVertexOrComputeProvided` when
    /// neither a vertex nor a compute shader was given, and with
    /// `ReflectionStageMismatch` when the reflections are not exactly one for
    /// each stage given.
    pub fn reflect(&self, reflections: &Vec<StageReflection>) -> (r: Result<
        SpirvReflection,
        ShaderError,
    >)
        ensures
            !self.has_required_stage() ==> r == Err::<SpirvReflection, ShaderError>(
                ShaderError::NoVertexOrComputeProvided,
            ),
            self.has_required_stage() && !self.reflects_slots(reflections@) ==> r == Err::<
                SpirvReflection,
                ShaderError,
            >(ShaderError::ReflectionStageMismatch),
            self.has_required_stage() && self.reflects_slots(reflections@) ==> (r is Ok
                <==> merged_bindings(bindings_of(reflections@)) is Some && merged_ranges(
                ranges_of(reflections@),
            ) is Some),
            self.has_required_stage() && self.reflects_slots(reflections@) && r is Err ==> r
                == Err::<SpirvReflection, ShaderError>(ShaderError::ReflectionConflict),
            r matches Ok(m) ==> Some(m.bindings@) == merged_bindings(bindings_of(reflections@)),
            r matches Ok(m) ==> Some(m.push_constants@) == merged_ranges(ranges_of(reflections@)),
            r matches Ok(m) ==> m.attributes@.map_values(|a: Attribute| a@) == vertex_attributes(
                reflections@,
            ),
    {
        if !self.has_vertex_or_compute() {
            return Err(ShaderError::NoVertexOrComputeProvided);
        }
        if !self.stages_match(reflections) {
            return Err(ShaderError::ReflectionStageMismatch);
        }
        merge(reflections)
    }

    /// A builder with no shader given.
    pub fn new() -> (r: ShaderSetBuilder)
        ensures
            forall|s: Stage| #[trigger] r.slot(s) is None,
    {
        ShaderSetBuilder {
            vertex: None,
            fragment: None,
            geometry: None,
            hull: None,
            domain: None,
            compute: None,
        }
    }

    fn with_stage<S: Shader>(self, stage: Stage, shader: &S) -> (r: Result<
        ShaderSetBuilder,
        S::Error,
    >)
        ensures
            self.with_result(stage, shader, r),
    {
        let data = match shader.spirv() {
            Ok(data) => data,
            Err(e) => {
                return Err(e);
            },
        };
        let filled = Some((data, shader.entry().to_owned()));
        let mut b = self;
        match stage {
            Stage::Vertex => b.vertex = filled,
            Stage::Fragment => b.fragment = filled,
            Stage::Geometry => b.geometry = filled,
            Stage::Hull => b.hull = filled,
            Stage::Domain => b.domain = filled,
            Stage::Compute => b.compute = filled,
        }
        Ok(b)
    }

    /// Gives the vertex shader, in place of any given before.
    pub fn with_vertex<S: Shader>(self, shader: &S) -> (r: Result<ShaderSetBuilder, S::Error>)
        ensures
            self.with_result(Stage::Vertex, shader, r),
    {
        self.with_stage(Stage::Vertex, shader)
    }

    /// Gives the fragment shader, in place of any given before.
    pub fn with_fragment<S: Shader>(self, shader: &S) -> (r: Result<ShaderSetBuilder, S::Error>)
        ensures
            self.with_result(Stage::Fragment, shader, r),
    {
        self.with_stage(Stage::Fragment, shader)
    }

    /// Gives the geometry shader, in place of any given before.
    pub fn with_geometry<S: Shader>(self, shader: &S) -> (r: Result<ShaderSetBuilder, S::Error>)
        ensures
            self.with_result(Stage::Geometry, shader, r),
    {
        self.with_stage(Stage::Geometry, shader)
    }

    /// Gives the tessellation-control shader, in place of any given before.
    pub fn with_hull<S: Shader>(self, shader: &S) -> (r: Result<ShaderSetBuilder, S::Error>)
        ensures
            self.with_result(Stage::Hull, shader, r),
    {
        self.with_stage(Stage::Hull, shader)
    }

    /// Gives the tessellation-evaluation shader, in place of any given before.
    pub fn with_domain<S: Shader>(self, shader: &S) -> (r: Result<ShaderSetBuilder, S::Error>)
        ensures
            self.with_result(Stage::Domain, shader, r),
    {
        self.with_stage(Stage::Domain, shader)
    }

    /// Gives the compute shader, in place of any given before. A set needs a
    /// vertex or a compute shader.
    pub fn with_compute<S: Shader>(self, shader: &S) -> (r: Result<ShaderSetBuilder, S::Error>)
        ensures
            self.with_result(Stage::Compute, shader, r),
    {
        self.with_stage(Stage::Compute, shader)
    }

    fn storage_for(
        slot: &Option<(Vec<u32>, String)>,
        stage: Stage,
        specialization: Option<Specialization>,
    ) -> (r: Option<ShaderStorage>)
        ensures
            fresh_storage(r, slot_view(*slot), stage, spec_view(specialization)),
    {
        match slot {
            Some((words, entry)) => Some(
                ShaderStorage::new(stage, copy_words(words.as_slice()), entry.clone(), specialization),
            ),
            None => None,
        }
    }

    /// An unloaded shader set with one record for each stage given, paired
    /// with that stage's specialization. Fails with `MissingRequiredStage`
    /// when neither a vertex nor a compute shader was given. No module is
    /// created here.
    pub fn build(&self, spec_constants: SpecConstantSet) -> (r: Result<ShaderSet, ShaderError>)
        ensures
            !self.has_required_stage() <==> r is Err,
            r is Err ==> r == Err::<ShaderSet, ShaderError>(ShaderError::MissingRequiredStage),
            r matches Ok(set) ==> self.built_into(spec_constants, set),
    {
        if self.vertex.is_none() && self.compute.is_none() {
            return Err(ShaderError::MissingRequiredStage);
        }
        let SpecConstantSet { vertex, fragment, geometry, hull, domain, compute } = spec_constants;
        let set = ShaderSet {
            vertex: Self::storage_for(&self.vertex, Stage::Vertex, vertex),
            fragment: Self::storage_for(&self.fragment, Stage::Fragment, fragment),
            geometry: Self::storage_for(&self.geometry, Stage::Geometry, geometry),
            hull: Self::storage_for(&self.hull, Stage::Hull, hull),
            domain: Self::storage_for(&self.domain, Stage::Domain, domain),
            compute: Self::storage_for(&self.compute, Stage::Compute, compute),
        };
        Ok(set)
    }
}

impl Default for ShaderSetBuilder {
    fn default() -> (r: ShaderSetBuilder)
        ensures
            forall|s: Stage| #[trigger] r.slot(s) is None,
    {
        ShaderSetBuilder::new()
    }
}

/// `r` is the unloaded record made for `stage` from a builder slot and a
/// specialization, or nothing when the slot is empty.
pub open spec fn fresh_storage(
    r: Option<ShaderStorage>,
    slot: Option<(Seq<u32>, Seq<char>)>,
    stage: Stage,
    specialization: Option<(Seq<crate::storage::SpecializationConstant>, Seq<u8>)>,
) -> bool {
    match slot {
        None => r is None,
        Some((words, entry)) => r matches Some(st) && st.stage() == stage && st.spirv() == words
            && st.entry() == entry && st.specialization() == specialization && st.state()
            == ModuleState::Unloaded,
    }
}

/// The compiled, stage-indexed records of one pipeline's shaders.
#[derive(Debug)]
pub struct ShaderSet {
    vertex: Option<ShaderStorage>,
    fragment: Option<ShaderStorage>,
    geometry: Option<ShaderStorage>,
    hull: Option<ShaderStorage>,
    domain: Option<ShaderStorage>,
    compute: Option<ShaderStorage>,
}

/// The stages that a graphics pipeline takes from a set.
pub open spec fn is_graphics(s: Stage) -> bool {
    s != Stage::Compute
}

/// `ep` is the entry point of the record, both absent or both present.
pub open spec fn entry_of_opt(ep: Option<EntryPoint>, s: Option<ShaderStorage>) -> bool {
    match s {
        None => ep is None,
        Some(st) => ep matches Some(e) && is_entry_of(e, st),
    }
}

/// What compiling does to one record: `b` is `a` after `compile` returned `r`.
pub open spec fn compiled(a: ShaderStorage, b: ShaderStorage, r: Result<(), ShaderError>) -> bool {
    &&& b.same_contents(a)
    &&& a.state() != ModuleState::Unloaded ==> r == Err::<(), ShaderError>(
        ShaderError::DoubleCompile,
    ) && b.state() == a.state()
    &&& a.state() != ModuleState::Unloaded ==> b == a
    &&& a.state() == ModuleState::Unloaded ==> (r is Ok <==> b.state() is Loaded)
    &&& a.state() == ModuleState::Unloaded && r is Err ==> r == Err::<(), ShaderError>(
        ShaderError::BackendCompileFailure,
    ) && b.state() == ModuleState::Unloaded
}

/// What loading does to one optional record.
pub open spec fn slot_compiled(
    a: Option<ShaderStorage>,
    b: Option<ShaderStorage>,
    r: Result<(), ShaderError>,
) -> bool {
    match (a, b) {
        (Some(x), Some(y)) => compiled(x, y, r),
        (None, None) => r is Ok,
        _ => false,
    }
}

/// The module that loading one optional record created, if any.
pub open spec fn slot_module(a: Option<ShaderStorage>, b: Option<ShaderStorage>) -> Seq<
    (ModuleHandle, Seq<u32>),
> {
    match (a, b) {
        (Some(x), Some(y)) => new_module(x, y),
        _ => Seq::empty(),
    }
}

/// The handle of an optional record that is loaded, if any.
pub open spec fn slot_handle(a: Option<ShaderStorage>) -> Seq<ModuleHandle> {
    match a {
        Some(x) => loaded_handle(x),
        None => Seq::empty(),
    }
}

/// No record, or one whose module is loaded or disposed: loading leaves it
/// and the device as they are.
pub open spec fn left_by_load(a: Option<ShaderStorage>) -> bool {
    match a {
        Some(x) => x.state() != ModuleState::Unloaded,
        None => true,
    }
}

fn load_slot<D: Device>(slot: &mut Option<ShaderStorage>, device: &mut LoggedDevice<D>) -> (r: Result<
    (),
    ShaderError,
>)
    ensures
        slot_compiled(*old(slot), *final(slot), r),
        final(device).created() == old(device).created() + slot_module(*old(slot), *final(slot)),
        final(device).released() == old(device).released(),
        final(device).requested().len() == old(device).requested().len() + slot_module(
            *old(slot),
            *final(slot),
        ).len() + if r == Err::<(), ShaderError>(ShaderError::BackendCompileFailure) {
            1int
        } else {
            0int
        },
        left_by_load(*old(slot)) ==> *final(slot) == *old(slot) && *final(device) == *old(device),
{
    match slot {
        Some(st) => st.compile(device),
        None => Ok(()),
    }
}

/// What disposing does to one optional record.
pub open spec fn slot_disposed(a: Option<ShaderStorage>, b: Option<ShaderStorage>) -> bool {
    match (a, b) {
        (Some(x), Some(y)) => y.same_contents(x) && y.state() == after_dispose(x.state()),
        (None, None) => true,
        _ => false,
    }
}

fn dispose_slot<D: Device>(slot: &mut Option<ShaderStorage>, device: &mut LoggedDevice<D>)
    ensures
        final(device).released() == old(device).released() + slot_handle(*old(slot)),
        final(device).created() == old(device).created(),
        final(device).requested() == old(device).requested(),
        slot_handle(*old(slot)).len() == 0 ==> *final(device) == *old(device),
        slot_disposed(*old(slot), *final(slot)),
{
    match slot {
        Some(st) => st.dispose(device),
        None => {},
    }
}

fn entry_opt(slot: &Option<ShaderStorage>) -> (r: Result<Option<EntryPoint<'_>>, ShaderError>)
    ensures
        match *slot {
            None => r matches Ok(None),
            Some(st) => (st.state() is Loaded <==> r is Ok) && (r is Err ==> r == Err::<
                Option<EntryPoint>,
                ShaderError,
            >(ShaderError::StageNotLoaded)),
        },
        r matches Ok(e) ==> entry_of_opt(e, *slot),
{
    match slot {
        Some(st) => {
            let e = st.get_entry_point()?;
            Ok(Some(e))
        },
        None => Ok(None),
    }
}

proof fn lemma_chain<A>(
    c0: Seq<A>,
    c1: Seq<A>,
    c2: Seq<A>,
    c3: Seq<A>,
    c4: Seq<A>,
    c5: Seq<A>,
    c6: Seq<A>,
    m: Seq<Seq<A>>,
)
    requires
        m.len() == 6,
        c1 == c0 + m[0],
        c2 == c1 + m[1],
        c3 == c2 + m[2],
        c4 == c3 + m[3],
        c5 == c4 + m[4],
        c6 == c5 + m[5],
    ensures
        c6 == c0 + (m[0] + m[1] + m[2] + m[3] + m[4] + m[5]),
{
    assert(c6 =~= c0 + (m[0] + m[1] + m[2] + m[3] + m[4] + m[5]));
}

/// The graphics stages' entry points that a pipeline is created from.
#[derive(Debug)]
pub struct GraphicsShaderSet<'a> {
    pub vertex: EntryPoint<'a>,
    pub fragment: Option<EntryPoint<'a>>,
    pub domain: Option<EntryPoint<'a>>,
    pub hull: Option<EntryPoint<'a>>,
    pub geometry: Option<EntryPoint<'a>>,
}

impl ShaderSet {
    /// The record of a stage, if the set has one.
    pub closed spec fn storage(&self, s: Stage) -> Option<ShaderStorage> {
        match s {
            Stage::Vertex => self.vertex,
            Stage::Fragment => self.fragment,
            Stage::Geometry => self.geometry,
            Stage::Hull => self.hull,
            Stage::Domain => self.domain,
            Stage::Compute => self.compute,
        }
    }

    /// The set has a vertex or a compute record, and each record is of the
    /// stage it is kept under.
    pub open spec fn wf(&self) -> bool {
        &&& (self.storage(Stage::Vertex) is Some || self.storage(Stage::Compute) is Some)
        &&& forall|s: Stage| #[trigger] self.storage(s) matches Some(st) ==> st.stage() == s
    }

    /// The set has the same records as `o`, whatever their modules.
    pub open spec fn same_records(&self, o: ShaderSet) -> bool {
        forall|s: Stage|
            match (#[trigger] self.storage(s), o.storage(s)) {
                (Some(a), Some(b)) => a.same_contents(b),
                (None, None) => true,
                _ => false,
            }
    }

    /// The state of a stage's module, if the set has that stage.
    pub open spec fn state_of(&self, s: Stage) -> Option<ModuleState> {
        match self.storage(s) {
            Some(st) => Some(st.state()),
            None => None,
        }
    }

    /// The set has a record for the stage and its module is not loaded.
    pub open spec fn present_unloaded(&self, s: Stage) -> bool {
        match self.state_of(s) {
            Some(m) => !(m is Loaded),
            None => false,
        }
    }

    /// What `raw` decides: no vertex record, a graphics record not loaded, or
    /// success.
    pub open spec fn raw_outcome(&self) -> Result<(), ShaderError> {
        if self.storage(Stage::Vertex) is None {
            Err(ShaderError::MissingVertexShader)
        } else if exists|s: Stage|
            is_graphics(s) && #[trigger] self.present_unloaded(s) {
            Err(ShaderError::StageNotLoaded)
        } else {
            Ok(())
        }
    }

    /// `new` is this set after `dispose`: the same records, every loaded
    /// module released.
    pub open spec fn disposed_into(&self, new: ShaderSet) -> bool {
        &&& new.same_records(*self)
        &&& forall|s: Stage| #[trigger] new.state_of(s) == match self.state_of(s) {
            Some(m) => Some(after_dispose(m)),
            None => None,
        }
    }

    /// `new` is this set after `load` returned `r`: the same records; each
    /// module either as it was or newly loaded from unloaded; on success
    /// every module newly loaded; failure whenever a module was not unloaded.
    pub open spec fn loaded_into(&self, new: ShaderSet, r: Result<(), ShaderError>) -> bool {
        &&& new.same_records(*self)
        &&& forall|s: Stage| #[trigger] new.state_of(s) == self.state_of(s) || (self.state_of(s) == Some(ModuleState::Unloaded) && new.loaded(s))
        &&& r is Ok ==> forall|s: Stage| #[trigger] self.state_of(s) is Some ==> self.state_of(s) == Some(ModuleState::Unloaded) && new.loaded(s)
        &&& (exists|s: Stage| #[trigger] self.present_not_unloaded(s)) ==> r is Err
        &&& r == Err::<(), ShaderError>(ShaderError::DoubleCompile) ==> exists|s: Stage| #[trigger] self.present_not_unloaded(s)
        &&& r is Err ==> r == Err::<(), ShaderError>(ShaderError::DoubleCompile) || r == Err::<(), ShaderError>(ShaderError::BackendCompileFailure)
        &&& r is Err ==> exists|k: Stage| #[trigger] self.stopped_at(new, k)
        &&& self.blocked_first() ==> r == Err::<(), ShaderError>(ShaderError::DoubleCompile) && new == *self
    }

    /// Loading stopped at stage `k`: every earlier record was unloaded and is
    /// now loaded, `k`'s module is as it was, and every later record is
    /// untouched.
    pub open spec fn stopped_at(&self, new: ShaderSet, k: Stage) -> bool {
        &&& forall|t: Stage|
            Self::load_rank(t) < Self::load_rank(k) ==> #[trigger] self.state_of(t) is None || (
            self.state_of(t) == Some(ModuleState::Unloaded) && new.loaded(t))
        &&& forall|t: Stage|
            Self::load_rank(t) > Self::load_rank(k) ==> #[trigger] new.storage(t) == self.storage(t)
        &&& new.state_of(k) == self.state_of(k)
    }

    /// The first record in load order has a module that is loaded or
    /// disposed.
    pub open spec fn blocked_first(&self) -> bool {
        exists|s: Stage|
            #[trigger] self.present_not_unloaded(s) && forall|t: Stage|
                Self::load_rank(t) < Self::load_rank(s) ==> #[trigger] self.storage(t) is None
    }

    /// The modules that loading this set into `new` created, in load order,
    /// each with the bytecode it was made from.
    pub open spec fn new_modules(&self, new: ShaderSet) -> Seq<(ModuleHandle, Seq<u32>)> {
        slot_module(self.storage(Stage::Vertex), new.storage(Stage::Vertex)) + slot_module(
            self.storage(Stage::Fragment),
            new.storage(Stage::Fragment),
        ) + slot_module(self.storage(Stage::Geometry), new.storage(Stage::Geometry)) + slot_module(
            self.storage(Stage::Hull),
            new.storage(Stage::Hull),
        ) + slot_module(self.storage(Stage::Domain), new.storage(Stage::Domain)) + slot_module(
            self.storage(Stage::Compute),
            new.storage(Stage::Compute),
        )
    }

    /// The handles of the loaded records, in load order.
    pub open spec fn loaded_handles(&self) -> Seq<ModuleHandle> {
        slot_handle(self.storage(Stage::Vertex)) + slot_handle(self.storage(Stage::Fragment))
            + slot_handle(self.storage(Stage::Geometry)) + slot_handle(self.storage(Stage::Hull))
            + slot_handle(self.storage(Stage::Domain)) + slot_handle(self.storage(Stage::Compute))
    }

    proof fn lemma_same_storages(a: ShaderSet, b: ShaderSet)
        requires
            forall|t: Stage| #[trigger] a.storage(t) == b.storage(t),
        ensures
            a == b,
    {
        assert(a.storage(Stage::Vertex) == b.storage(Stage::Vertex));
        assert(a.storage(Stage::Fragment) == b.storage(Stage::Fragment));
        assert(a.storage(Stage::Geometry) == b.storage(Stage::Geometry));
        assert(a.storage(Stage::Hull) == b.storage(Stage::Hull));
        assert(a.storage(Stage::Domain) == b.storage(Stage::Domain));
        assert(a.storage(Stage::Compute) == b.storage(Stage::Compute));
    }

    /// The set has a record for the stage and its module is loaded.
    pub open spec fn loaded(&self, s: Stage) -> bool {
        match self.state_of(s) {
            Some(m) => m is Loaded,
            None => false,
        }
    }

    /// The set has a record for the stage and its module is loaded or disposed.
    pub open spec fn present_not_unloaded(&self, s: Stage) -> bool {
        match self.state_of(s) {
            Some(m) => m != ModuleState::Unloaded,
            None => false,
        }
    }

    /// The place of a stage in the order in which `load` compiles.
    pub open spec fn load_rank(s: Stage) -> int {
        match s {
            Stage::Vertex => 0,
            Stage::Fragment => 1,
            Stage::Geometry => 2,
            Stage::Hull => 3,
            Stage::Domain => 4,
            Stage::Compute => 5,
        }
    }

    proof fn lemma_stopped(o: ShaderSet, n: ShaderSet, r: Result<(), ShaderError>, last: Stage)
        requires
            forall|s: Stage|
                #![trigger n.storage(s)]
                Self::load_rank(s) < Self::load_rank(last) ==> slot_compiled(
                    o.storage(s),
                    n.storage(s),
                    Ok(()),
                ),
            slot_compiled(o.storage(last), n.storage(last), r),
            forall|s: Stage|
                #![trigger n.storage(s)]
                Self::load_rank(s) > Self::load_rank(last) ==> n.storage(s) == o.storage(s),
            r is Ok ==> last == Stage::Compute,
        ensures
            o.loaded_into(n, r),
            o.wf() ==> n.wf(),
            o.blocked_first() ==> o.present_not_unloaded(last) && forall|t: Stage|
                Self::load_rank(t) < Self::load_rank(last) ==> #[trigger] o.storage(t) is None,
    {
        if r is Err {
            if o.storage(last) is None {
                assert(r is Ok);
            }
            assert forall|t: Stage|
                Self::load_rank(t) < Self::load_rank(last) implies #[trigger] o.state_of(t) is None || (
                o.state_of(t) == Some(ModuleState::Unloaded) && n.loaded(t)) by {
                assert(slot_compiled(o.storage(t), n.storage(t), Ok(())));
            }
            assert forall|t: Stage|
                Self::load_rank(t) > Self::load_rank(last) implies #[trigger] n.storage(t) == o.storage(t) by {
            }
            assert(o.stopped_at(n, last));
        }
        if o.blocked_first() {
            let s = choose|s: Stage|
                #[trigger] o.present_not_unloaded(s) && forall|t: Stage|
                    Self::load_rank(t) < Self::load_rank(s) ==> #[trigger] o.storage(t) is None;
            if Self::load_rank(s) < Self::load_rank(last) {
                assert(slot_compiled(o.storage(s), n.storage(s), Ok(())));
            } else if Self::load_rank(s) > Self::load_rank(last) {
                assert(o.storage(last) is None);
                assert(r is Ok);
            }
            assert(s == last);
            assert forall|t: Stage| #[trigger] n.storage(t) == o.storage(t) by {
                if Self::load_rank(t) < Self::load_rank(last) {
                    assert(o.storage(t) is None);
                    assert(slot_compiled(o.storage(t), n.storage(t), Ok(())));
                } else if t == last {
                } else {
                }
            }
            Self::lemma_same_storages(n, o);
        }
        assert forall|s: Stage| #[trigger] n.storage(s) == n.storage(s) implies match (n.storage(s), o.storage(s)) {
            (Some(a), Some(b)) => a.same_contents(b),
            (None, None) => true,
            _ => false,
        } by {
            if Self::load_rank(s) < Self::load_rank(last) {
            } else if s == last {
            } else {
            }
        }
        assert forall|s: Stage| #[trigger] n.state_of(s) == o.state_of(s) || (o.state_of(s) == Some(ModuleState::Unloaded) && n.loaded(s)) by {
            if Self::load_rank(s) < Self::load_rank(last) {
                assert(slot_compiled(o.storage(s), n.storage(s), Ok(())));
            } else if s == last {
            } else {
                assert(n.storage(s) == o.storage(s));
            }
        }
        if r is Ok {
            assert forall|s: Stage| #[trigger] o.state_of(s) is Some implies o.state_of(s) == Some(ModuleState::Unloaded) && n.loaded(s) by {
                if Self::load_rank(s) < Self::load_rank(last) {
                    assert(slot_compiled(o.storage(s), n.storage(s), Ok(())));
                } else {
                    assert(s == last);
                }
            }
        }
        if exists|s: Stage| #[trigger] o.present_not_unloaded(s) {
            let s = choose|s: Stage| #[trigger] o.present_not_unloaded(s);
            if Self::load_rank(s) < Self::load_rank(last) {
                assert(slot_compiled(o.storage(s), n.storage(s), Ok(())));
            } else if s != last {
                assert(Self::load_rank(s) > Self::load_rank(last));
            }
        }
        if r == Err::<(), ShaderError>(ShaderError::DoubleCompile) {
            assert(o.present_not_unloaded(last));
        }
        if o.wf() {
            assert forall|s: Stage| #[trigger] n.storage(s) is Some implies n.storage(s)->0.stage() == s by {
                if Self::load_rank(s) < Self::load_rank(last) {
                    assert(slot_compiled(o.storage(s), n.storage(s), Ok(())));
                } else if s != last {
                    assert(n.storage(s) == o.storage(s));
                }
            }
            assert(o.storage(Stage::Vertex) is Some ==> n.storage(Stage::Vertex) is Some);
            assert(o.storage(Stage::Compute) is Some ==> n.storage(Stage::Compute) is Some);
        }
    }

    /// Creates the module of every record, vertex first, then fragment,
    /// geometry, hull, domain and compute, and stops at the first failure;
    /// modules created before it stay loaded and later records are left
    /// alone. A first record that is already loaded or disposed fails with
    /// `DoubleCompile` before the device is asked anything.
    pub fn load<D: Device>(&mut self, device: &mut LoggedDevice<D>) -> (r: Result<
        (),
        ShaderError,
    >)
        ensures
            old(self).loaded_into(*final(self), r),
            old(self).wf() ==> final(self).wf(),
            final(device).created() == old(device).created() + old(self).new_modules(*final(self)),
            final(device).released() == old(device).released(),
            old(self).blocked_first() ==> *final(device) == *old(device),
            final(device).requested().len() == old(device).requested().len() + old(self).new_modules(
                *final(self),
            ).len() + if r == Err::<(), ShaderError>(ShaderError::BackendCompileFailure) {
                1int
            } else {
                0int
            },
    {
        let ghost o = *self;
        let ghost d0 = *device;
        let r = load_slot(&mut self.vertex, device);
        let ghost c1 = device.created();
        if r.is_err() {
            proof {
                Self::lemma_stopped(o, *self, r, Stage::Vertex);
                assert(slot_module(o.storage(Stage::Fragment), self.storage(Stage::Fragment)) =~= Seq::<(ModuleHandle, Seq<u32>)>::empty());
                assert(slot_module(o.storage(Stage::Geometry), self.storage(Stage::Geometry)) =~= Seq::<(ModuleHandle, Seq<u32>)>::empty());
                assert(slot_module(o.storage(Stage::Hull), self.storage(Stage::Hull)) =~= Seq::<(ModuleHandle, Seq<u32>)>::empty());
                assert(slot_module(o.storage(Stage::Domain), self.storage(Stage::Domain)) =~= Seq::<(ModuleHandle, Seq<u32>)>::empty());
                assert(slot_module(o.storage(Stage::Compute), self.storage(Stage::Compute)) =~= Seq::<(ModuleHandle, Seq<u32>)>::empty());
                lemma_chain(d0.created(), c1, c1, c1, c1, c1, c1, seq![slot_module(o.storage(Stage::Vertex), self.storage(Stage::Vertex)), slot_module(o.storage(Stage::Fragment), self.storage(Stage::Fragment)), slot_module(o.storage(Stage::Geometry), self.storage(Stage::Geometry)), slot_module(o.storage(Stage::Hull), self.storage(Stage::Hull)), slot_module(o.storage(Stage::Domain), self.storage(Stage::Domain)), slot_module(o.storage(Stage::Compute), self.storage(Stage::Compute))]);
                if o.blocked_first() {
                }
            }
            return r;
        }
        let r = load_slot(&mut self.fragment, device);
        let ghost c2 = device.created();
        if r.is_err() {
            proof {
                Self::lemma_stopped(o, *self, r, Stage::Fragment);
                assert(slot_module(o.storage(Stage::Geometry), self.storage(Stage::Geometry)) =~= Seq::<(ModuleHandle, Seq<u32>)>::empty());
                assert(slot_module(o.storage(Stage::Hull), self.storage(Stage::Hull)) =~= Seq::<(ModuleHandle, Seq<u32>)>::empty());
                assert(slot_module(o.storage(Stage::Domain), self.storage(Stage::Domain)) =~= Seq::<(ModuleHandle, Seq<u32>)>::empty());
                assert(slot_module(o.storage(Stage::Compute), self.storage(Stage::Compute)) =~= Seq::<(ModuleHandle, Seq<u32>)>::empty());
                lemma_chain(d0.created(), c1, c2, c2, c2, c2, c2, seq![slot_module(o.storage(Stage::Vertex), self.storage(Stage::Vertex)), slot_module(o.storage(Stage::Fragment), self.storage(Stage::Fragment)), slot_module(o.storage(Stage::Geometry), self.storage(Stage::Geometry)), slot_module(o.storage(Stage::Hull), self.storage(Stage::Hull)), slot_module(o.storage(Stage::Domain), self.storage(Stage::Domain)), slot_module(o.storage(Stage::Compute), self.storage(Stage::Compute))]);
                if o.blocked_first() {
                    assert(o.storage(Stage::Vertex) is None);
                }
            }
            return r;
        }
        let r = load_slot(&mut self.geometry, device);
        let ghost c3 = device.created();
        if r.is_err() {
            proof {
                Self::lemma_stopped(o, *self, r, Stage::Geometry);
                assert(slot_module(o.storage(Stage::Hull), self.storage(Stage::Hull)) =~= Seq::<(ModuleHandle, Seq<u32>)>::empty());
                assert(slot_module(o.storage(Stage::Domain), self.storage(Stage::Domain)) =~= Seq::<(ModuleHandle, Seq<u32>)>::empty());
                assert(slot_module(o.storage(Stage::Compute), self.storage(Stage::Compute)) =~= Seq::<(ModuleHandle, Seq<u32>)>::empty());
                lemma_chain(d0.created(), c1, c2, c3, c3, c3, c3, seq![slot_module(o.storage(Stage::Vertex), self.storage(Stage::Vertex)), slot_module(o.storage(Stage::Fragment), self.storage(Stage::Fragment)), slot_module(o.storage(Stage::Geometry), self.storage(Stage::Geometry)), slot_module(o.storage(Stage::Hull), self.storage(Stage::Hull)), slot_module(o.storage(Stage::Domain), self.storage(Stage::Domain)), slot_module(o.storage(Stage::Compute), self.storage(Stage::Compute))]);
                if o.blocked_first() {
                    assert(o.storage(Stage::Vertex) is None);
                    assert(o.storage(Stage::Fragment) is None);
                }
            }
            return r;
        }
        let r = load_slot(&mut self.hull, device);
        let ghost c4 = device.created();
        if r.is_err() {
            proof {
                Self::lemma_stopped(o, *self, r, Stage::Hull);
                assert(slot_module(o.storage(Stage::Domain), self.storage(Stage::Domain)) =~= Seq::<(ModuleHandle, Seq<u32>)>::empty());
                assert(slot_module(o.storage(Stage::Compute), self.storage(Stage::Compute)) =~= Seq::<(ModuleHandle, Seq<u32>)>::empty());
                lemma_chain(d0.created(), c1, c2, c3, c4, c4, c4, seq![slot_module(o.storage(Stage::Vertex), self.storage(Stage::Vertex)), slot_module(o.storage(Stage::Fragment), self.storage(Stage::Fragment)), slot_module(o.storage(Stage::Geometry), self.storage(Stage::Geometry)), slot_module(o.storage(Stage::Hull), self.storage(Stage::Hull)), slot_module(o.storage(Stage::Domain), self.storage(Stage::Domain)), slot_module(o.storage(Stage::Compute), self.storage(Stage::Compute))]);
                if o.blocked_first() {
                    assert(o.storage(Stage::Vertex) is None);
                    assert(o.storage(Stage::Fragment) is None);
                    assert(o.storage(Stage::Geometry) is None);
                }
            }
            return r;
        }
        let r = load_slot(&mut self.domain, device);
        let ghost c5 = device.created();
        if r.is_err() {
            proof {
                Self::lemma_stopped(o, *self, r, Stage::Domain);
                assert(slot_module(o.storage(Stage::Compute), self.storage(Stage::Compute)) =~= Seq::<(ModuleHandle, Seq<u32>)>::empty());
                lemma_chain(d0.created(), c1, c2, c3, c4, c5, c5, seq![slot_module(o.storage(Stage::Vertex), self.storage(Stage::Vertex)), slot_module(o.storage(Stage::Fragment), self.storage(Stage::Fragment)), slot_module(o.storage(Stage::Geometry), self.storage(Stage::Geometry)), slot_module(o.storage(Stage::Hull), self.storage(Stage::Hull)), slot_module(o.storage(Stage::Domain), self.storage(Stage::Domain)), slot_module(o.storage(Stage::Compute), self.storage(Stage::Compute))]);
                if o.blocked_first() {
                    assert(o.storage(Stage::Vertex) is None);
                    assert(o.storage(Stage::Fragment) is None);
                    assert(o.storage(Stage::Geometry) is None);
                    assert(o.storage(Stage::Hull) is None);
                }
            }
            return r;
        }
        let r = load_slot(&mut self.compute, device);
        let ghost c6 = device.created();
        proof {
            Self::lemma_stopped(o, *self, r, Stage::Compute);
            lemma_chain(d0.created(), c1, c2, c3, c4, c5, c6, seq![slot_module(o.storage(Stage::Vertex), self.storage(Stage::Vertex)), slot_module(o.storage(Stage::Fragment), self.storage(Stage::Fragment)), slot_module(o.storage(Stage::Geometry), self.storage(Stage::Geometry)), slot_module(o.storage(Stage::Hull), self.storage(Stage::Hull)), slot_module(o.storage(Stage::Domain), self.storage(Stage::Domain)), slot_module(o.storage(Stage::Compute), self.storage(Stage::Compute))]);
            if o.blocked_first() {
                assert(o.storage(Stage::Vertex) is None);
                assert(o.storage(Stage::Fragment) is None);
                assert(o.storage(Stage::Geometry) is None);
                assert(o.storage(Stage::Hull) is None);
                assert(o.storage(Stage::Domain) is None);
            }
        }
        r
    }

    /// The graphics stages' entry points. Fails with `MissingVertexShader`
    /// without a vertex record, and with `StageNotLoaded` when a graphics
    /// record's module is not loaded.
    pub fn raw(&self) -> (r: Result<GraphicsShaderSet<'_>, ShaderError>)
        ensures
            r is Ok <==> self.raw_outcome() is Ok,
            self.raw_outcome() matches Err(e) ==> r matches Err(x) && x == e,
            r matches Ok(g) ==> self.storage(Stage::Vertex) matches Some(v) && is_entry_of(g.vertex, v),
            r matches Ok(g) ==> entry_of_opt(g.fragment, self.storage(Stage::Fragment)),
            r matches Ok(g) ==> entry_of_opt(g.domain, self.storage(Stage::Domain)),
            r matches Ok(g) ==> entry_of_opt(g.hull, self.storage(Stage::Hull)),
            r matches Ok(g) ==> entry_of_opt(g.geometry, self.storage(Stage::Geometry)),
    {
        let vertex = match &self.vertex {
            Some(v) => match v.get_entry_point() {
                Ok(e) => e,
                Err(e) => {
                    assert(self.present_unloaded(Stage::Vertex));
                    return Err(e);
                },
            },
            None => {
                return Err(ShaderError::MissingVertexShader);
            },
        };
        let fragment = match entry_opt(&self.fragment) {
            Ok(e) => e,
            Err(e) => {
                assert(self.present_unloaded(Stage::Fragment));
                return Err(e);
            },
        };
        let domain = match entry_opt(&self.domain) {
            Ok(e) => e,
            Err(e) => {
                assert(self.present_unloaded(Stage::Domain));
                return Err(e);
            },
        };
        let hull = match entry_opt(&self.hull) {
            Ok(e) => e,
            Err(e) => {
                assert(self.present_unloaded(Stage::Hull));
                return Err(e);
            },
        };
        let geometry = match entry_opt(&self.geometry) {
            Ok(e) => e,
            Err(e) => {
                assert(self.present_unloaded(Stage::Geometry));
                return Err(e);
            },
        };
        assert forall|s: Stage| is_graphics(s) implies !#[trigger] self.present_unloaded(s) by {
            match s {
                Stage::Vertex => {},
                Stage::Fragment => {},
                Stage::Domain => {},
                Stage::Hull => {},
                Stage::Geometry => {},
                Stage::Compute => {},
            }
        }
        Ok(GraphicsShaderSet { vertex, fragment, domain, hull, geometry })
    }

    proof fn lemma_disposed(o: ShaderSet, n: ShaderSet)
        requires
            slot_disposed(o.storage(Stage::Vertex), n.storage(Stage::Vertex)),
            slot_disposed(o.storage(Stage::Fragment), n.storage(Stage::Fragment)),
            slot_disposed(o.storage(Stage::Geometry), n.storage(Stage::Geometry)),
            slot_disposed(o.storage(Stage::Hull), n.storage(Stage::Hull)),
            slot_disposed(o.storage(Stage::Domain), n.storage(Stage::Domain)),
            slot_disposed(o.storage(Stage::Compute), n.storage(Stage::Compute)),
        ensures
            o.disposed_into(n),
            o.wf() ==> n.wf(),
    {
        assert forall|s: Stage| #[trigger] slot_disposed(o.storage(s), n.storage(s)) by {
            match s {
                Stage::Vertex => {},
                Stage::Fragment => {},
                Stage::Domain => {},
                Stage::Hull => {},
                Stage::Geometry => {},
                Stage::Compute => {},
            }
        }
        assert forall|s: Stage| #[trigger] n.state_of(s) == match o.state_of(s) {
            Some(m) => Some(after_dispose(m)),
            None => None,
        } by {
            assert(slot_disposed(o.storage(s), n.storage(s)));
        }
        assert forall|s: Stage| #[trigger] n.storage(s) == n.storage(s) implies match (n.storage(s), o.storage(s)) {
            (Some(a), Some(b)) => a.same_contents(b),
            (None, None) => true,
            _ => false,
        } by {
            assert(slot_disposed(o.storage(s), n.storage(s)));
        }
    }

    /// Releases every loaded module through the device, in load order;
    /// records in any other state stay as they are, so calling it again
    /// leaves the set and the device alone.
    #[verifier::rlimit(60)]
    pub fn dispose<D: Device>(&mut self, device: &mut LoggedDevice<D>)
        ensures
            old(self).disposed_into(*final(self)),
            old(self).wf() ==> final(self).wf(),
            final(device).released() == old(device).released() + old(self).loaded_handles(),
            final(device).created() == old(device).created(),
            final(device).requested() == old(device).requested(),
            old(self).loaded_handles().len() == 0 ==> *final(device) == *old(device),
    {
        let ghost o = *self;
        let ghost d0 = *device;
        dispose_slot(&mut self.vertex, device);
        let ghost c1 = device.released();
        let ghost v1 = *device;
        dispose_slot(&mut self.fragment, device);
        let ghost c2 = device.released();
        let ghost v2 = *device;
        dispose_slot(&mut self.geometry, device);
        let ghost c3 = device.released();
        let ghost v3 = *device;
        dispose_slot(&mut self.hull, device);
        let ghost c4 = device.released();
        let ghost v4 = *device;
        dispose_slot(&mut self.domain, device);
        let ghost c5 = device.released();
        let ghost v5 = *device;
        dispose_slot(&mut self.compute, device);
        let ghost c6 = device.released();
        let ghost v6 = *device;
        proof {
            lemma_chain(d0.released(), c1, c2, c3, c4, c5, c6, seq![slot_handle(o.storage(Stage::Vertex)), slot_handle(o.storage(Stage::Fragment)), slot_handle(o.storage(Stage::Geometry)), slot_handle(o.storage(Stage::Hull)), slot_handle(o.storage(Stage::Domain)), slot_handle(o.storage(Stage::Compute))]);
            if o.loaded_handles().len() == 0 {
                assert(slot_handle(o.storage(Stage::Vertex)).len() == 0);
                assert(slot_handle(o.storage(Stage::Fragment)).len() == 0);
                assert(slot_handle(o.storage(Stage::Geometry)).len() == 0);
                assert(slot_handle(o.storage(Stage::Hull)).len() == 0);
                assert(slot_handle(o.storage(Stage::Domain)).len() == 0);
                assert(slot_handle(o.storage(Stage::Compute)).len() == 0);
                assert(v1 == d0);
                assert(v6 == d0);
            }
        }
        proof {
            Self::lemma_disposed(o, *self);
        }
    }

    /// Whether the set has a record for a stage.
    pub fn has_stage(&self, s: Stage) -> (r: bool)
        ensures
            r == self.storage(s) is Some,
    {
        match s {
            Stage::Vertex => self.vertex.is_some(),
            Stage::Fragment => self.fragment.is_some(),
            Stage::Geometry => self.geometry.is_some(),
            Stage::Hull => self.hull.is_some(),
            Stage::Domain => self.domain.is_some(),
            Stage::Compute => self.compute.is_some(),
        }
    }

    /// The state of a stage's module, if the set has that stage.
    pub fn stage_state(&self, s: Stage) -> (r: Option<ModuleState>)
        ensures
            r == self.state_of(s),
    {
        let st = match s {
            Stage::Vertex => &self.vertex,
            Stage::Fragment => &self.fragment,
            Stage::Geometry => &self.geometry,
            Stage::Hull => &self.hull,
            Stage::Domain => &self.domain,
            Stage::Compute => &self.compute,
        };
        match st {
            Some(x) => Some(x.module_state()),
            None => None,
        }
    }
}

/// Disposing a set a second time changes nothing: no module is left loaded
/// after the first, so the second releases none and leaves the device as it
/// was; the records stay, and so does the state of every module.
pub proof fn lemma_dispose_twice(a: ShaderSet, b: ShaderSet, c: ShaderSet)
    requires
        a.disposed_into(b),
        b.disposed_into(c),
    ensures
        b.loaded_handles().len() == 0,
        c.same_records(b),
        forall|s: Stage| #[trigger] c.state_of(s) == b.state_of(s),
{
    assert forall|s: Stage| #[trigger] slot_handle(b.storage(s)).len() == 0 by {
        assert(b.state_of(s) == match a.state_of(s) {
            Some(m) => Some(after_dispose(m)),
            None => None,
        });
    }
    assert(slot_handle(b.storage(Stage::Vertex)).len() == 0);
    assert(slot_handle(b.storage(Stage::Fragment)).len() == 0);
    assert(slot_handle(b.storage(Stage::Geometry)).len() == 0);
    assert(slot_handle(b.storage(Stage::Hull)).len() == 0);
    assert(slot_handle(b.storage(Stage::Domain)).len() == 0);
    assert(slot_handle(b.storage(Stage::Compute)).len() == 0);
    assert forall|s: Stage| #[trigger] c.state_of(s) == b.state_of(s) by {
        assert(c.state_of(s) == match b.state_of(s) {
            Some(m) => Some(after_dispose(m)),
            None => None,
        });
        assert(b.state_of(s) == match a.state_of(s) {
            Some(m) => Some(after_dispose(m)),
            None => None,
        });
    }
}

/// A set just built from a builder with a vertex shader refuses its
/// graphics stages with `StageNotLoaded` until it is loaded.
pub proof fn lemma_raw_before_load(b: ShaderSetBuilder, c: SpecConstantSet, set: ShaderSet)
    requires
        b.slot(Stage::Vertex) is Some,
        b.built_into(c, set),
    ensures
        set.raw_outcome() == Err::<(), ShaderError>(ShaderError::StageNotLoaded),
{
    assert(fresh_storage(set.storage(Stage::Vertex), b.slot(Stage::Vertex), Stage::Vertex, spec_view(c.for_stage(Stage::Vertex))));
    assert(set.present_unloaded(Stage::Vertex));
}

/// A builder with only a vertex shader builds a set that, once loaded,
/// yields its graphics stages with no fragment stage.
pub proof fn lemma_vertex_only(
    b: ShaderSetBuilder,
    c: SpecConstantSet,
    set: ShaderSet,
    loaded: ShaderSet,
)
    requires
        b.slot(Stage::Vertex) is Some,
        forall|s: Stage| s != Stage::Vertex ==> #[trigger] b.slot(s) is None,
        b.built_into(c, set),
        set.loaded_into(loaded, Ok(())),
    ensures
        b.has_required_stage(),
        loaded.raw_outcome() is Ok,
        loaded.storage(Stage::Fragment) is None,
{
    assert(fresh_storage(set.storage(Stage::Fragment), b.slot(Stage::Fragment), Stage::Fragment, spec_view(c.for_stage(Stage::Fragment))));
    assert(loaded.same_records(set));
    assert(match (loaded.storage(Stage::Fragment), set.storage(Stage::Fragment)) {
        (Some(x), Some(y)) => x.same_contents(y),
        (None, None) => true,
        _ => false,
    });
    assert(loaded.storage(Stage::Vertex) is Some) by {
        assert(fresh_storage(set.storage(Stage::Vertex), b.slot(Stage::Vertex), Stage::Vertex, spec_view(c.for_stage(Stage::Vertex))));
        assert(match (loaded.storage(Stage::Vertex), set.storage(Stage::Vertex)) {
            (Some(x), Some(y)) => x.same_contents(y),
            (None, None) => true,
            _ => false,
        });
    }
    assert forall|s: Stage| is_graphics(s) implies !#[trigger] loaded.present_unloaded(s) by {
        if set.state_of(s) is Some {
            assert(loaded.loaded(s));
        } else {
            assert(match (loaded.storage(s), set.storage(s)) {
                (Some(x), Some(y)) => x.same_contents(y),
                (None, None) => true,
                _ => false,
            });
        }
    }
}

/// A builder with only a vertex and a fragment shader builds a set whose
/// successful load creates exactly two modules, the first from the vertex
/// bytecode and the second from the fragment bytecode, and leaves each record
/// holding the module made from its bytecode; its graphics stages can then be
/// had, with no domain, hull or geometry stage.
pub proof fn lemma_vertex_fragment(
    b: ShaderSetBuilder,
    c: SpecConstantSet,
    set: ShaderSet,
    loaded: ShaderSet,
)
    requires
        b.slot(Stage::Vertex) is Some,
        b.slot(Stage::Fragment) is Some,
        forall|s: Stage| s != Stage::Vertex && s != Stage::Fragment ==> #[trigger] b.slot(s) is None,
        b.built_into(c, set),
        set.loaded_into(loaded, Ok(())),
    ensures
        loaded.raw_outcome() is Ok,
        loaded.storage(Stage::Domain) is None,
        loaded.storage(Stage::Hull) is None,
        loaded.storage(Stage::Geometry) is None,
        exists|hv: ModuleHandle, hf: ModuleHandle|
            loaded.state_of(Stage::Vertex) == Some(ModuleState::Loaded(hv)) && loaded.state_of(
                Stage::Fragment,
            ) == Some(ModuleState::Loaded(hf)) && set.new_modules(loaded) == seq![
                (hv, words_of(b.slot(Stage::Vertex))),
                (hf, words_of(b.slot(Stage::Fragment))),
            ],
{
    assert forall|s: Stage| #[trigger] loaded.storage(s) is None <==> set.storage(s) is None by {
        assert(fresh_storage(set.storage(s), b.slot(s), s, spec_view(c.for_stage(s))));
        assert(match (loaded.storage(s), set.storage(s)) {
            (Some(x), Some(y)) => x.same_contents(y),
            (None, None) => true,
            _ => false,
        });
    }
    assert(fresh_storage(set.storage(Stage::Vertex), b.slot(Stage::Vertex), Stage::Vertex, spec_view(c.for_stage(Stage::Vertex))));
    assert(fresh_storage(set.storage(Stage::Fragment), b.slot(Stage::Fragment), Stage::Fragment, spec_view(c.for_stage(Stage::Fragment))));
    assert(loaded.storage(Stage::Domain) is None);
    assert(loaded.storage(Stage::Hull) is None);
    assert(loaded.storage(Stage::Geometry) is None);
    assert(loaded.storage(Stage::Compute) is None);
    assert(set.state_of(Stage::Vertex) is Some);
    assert(set.state_of(Stage::Fragment) is Some);
    assert(loaded.loaded(Stage::Vertex));
    assert(loaded.loaded(Stage::Fragment));
    let hv = loaded.state_of(Stage::Vertex)->0->Loaded_0;
    let hf = loaded.state_of(Stage::Fragment)->0->Loaded_0;
    assert(set.new_modules(loaded) =~= seq![
        (hv, words_of(b.slot(Stage::Vertex))),
        (hf, words_of(b.slot(Stage::Fragment))),
    ]);
    assert forall|s: Stage| is_graphics(s) implies !#[trigger] loaded.present_unloaded(s) by {
        if set.state_of(s) is Some {
            assert(loaded.loaded(s));
        }
    }
}

} // verus!

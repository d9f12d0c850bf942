//! One stage's runtime record: bytecode, entry point, specialization and the
//! lifecycle of its backend module.

use crate::bytecode::Stage;
use crate::device::{Device, LoggedDevice, ModuleHandle};
use crate::error::ShaderError;
use vstd::prelude::*;

verus! {

/// One specialization constant: its id and where its value lies in the data.
#[derive(PartialEq, Eq, Structural, Clone, Copy, Debug)]
pub struct SpecializationConstant {
    pub id: u32,
    pub offset: u32,
    pub size: u32,
}

/// Values that override a module's specialization constants at creation.
#[derive(Clone, Debug)]
pub struct Specialization {
    pub constants: Vec<SpecializationConstant>,
    pub data: Vec<u8>,
}

impl View for Specialization {
    type V = (Seq<SpecializationConstant>, Seq<u8>);

    open spec fn view(&self) -> (Seq<SpecializationConstant>, Seq<u8>) {
        (self.constants@, self.data@)
    }
}

impl Specialization {
    /// No constants and no data.
    pub fn empty() -> (r: Specialization)
        ensures
            r@ == (Seq::<SpecializationConstant>::empty(), Seq::<u8>::empty()),
    {
        Specialization { constants: Vec::new(), data: Vec::new() }
    }

    /// A copy with the same constants and data.
    pub fn duplicate(&self) -> (r: Specialization)
        ensures
            r@ == self@,
    {
        let mut constants: Vec<SpecializationConstant> = Vec::new();
        let mut i: usize = 0;
        while i < self.constants.len()
            invariant
                i <= self.constants@.len(),
                constants@ == self.constants@.subrange(0, i as int),
            decreases self.constants@.len() - i,
        {
            constants.push(self.constants[i]);
            i = i + 1;
        }
        let mut data: Vec<u8> = Vec::new();
        let mut j: usize = 0;
        while j < self.data.len()
            invariant
                j <= self.data@.len(),
                data@ == self.data@.subrange(0, j as int),
            decreases self.data@.len() - j,
        {
            data.push(self.data[j]);
            j = j + 1;
        }
        assert(constants@ =~= self.constants@);
        assert(data@ =~= self.data@);
        Specialization { constants, data }
    }
}

/// The view of an optional specialization.
pub open spec fn spec_view(s: Option<Specialization>) -> Option<
    (Seq<SpecializationConstant>, Seq<u8>),
> {
    match s {
        Some(v) => Some(v@),
        None => None,
    }
}

/// Where a stage's module stands: not yet created, created, or released for
/// good.
#[derive(PartialEq, Eq, Structural, Clone, Copy, Debug)]
pub enum ModuleState {
    Unloaded,
    Loaded(ModuleHandle),
    Disposed,
}

/// The state that disposing leaves: a loaded module is released, any other
/// state stays.
pub open spec fn after_dispose(s: ModuleState) -> ModuleState {
    match s {
        ModuleState::Loaded(_) => ModuleState::Disposed,
        _ => s,
    }
}

/// What a pipeline needs of one stage: entry point, module and specialization.
#[derive(Debug)]
pub struct EntryPoint<'a> {
    pub entry: &'a str,
    pub module: ModuleHandle,
    pub specialization: Specialization,
}

/// One stage's bytecode, entry point and specialization, with its module.
#[derive(Debug)]
pub struct ShaderStorage {
    stage: Stage,
    spirv: Vec<u32>,
    entrypoint: String,
    specialization: Option<Specialization>,
    state: ModuleState,
}

/// `ep` is the entry point of storage `s`, whose module is loaded.
pub open spec fn is_entry_of(ep: EntryPoint, s: ShaderStorage) -> bool {
    &&& s.state() matches ModuleState::Loaded(h) && ep.module == h
    &&& ep.entry@ == s.entry()
    &&& ep.specialization@ == match s.specialization() {
        Some(v) => v,
        None => (Seq::<SpecializationConstant>::empty(), Seq::<u8>::empty()),
    }
}

/// The module that compiling `a` into `b` created, with the bytecode it was
/// created from: one when `a` was unloaded and `b` is loaded, else none.
pub open spec fn new_module(a: ShaderStorage, b: ShaderStorage) -> Seq<(ModuleHandle, Seq<u32>)> {
    match (a.state(), b.state()) {
        (ModuleState::Unloaded, ModuleState::Loaded(h)) => seq![(h, a.spirv())],
        _ => Seq::empty(),
    }
}

/// The handle of a loaded record, or none.
pub open spec fn loaded_handle(a: ShaderStorage) -> Seq<ModuleHandle> {
    match a.state() {
        ModuleState::Loaded(h) => seq![h],
        _ => Seq::empty(),
    }
}

impl ShaderStorage {
    /// The stage.
    pub closed spec fn stage(&self) -> Stage {
        self.stage
    }

    /// The bytecode words.
    pub closed spec fn spirv(&self) -> Seq<u32> {
        self.spirv@
    }

    /// The name of the entry point.
    pub closed spec fn entry(&self) -> Seq<char> {
        self.entrypoint@
    }

    /// The specialization, if any.
    pub closed spec fn specialization(&self) -> Option<(Seq<SpecializationConstant>, Seq<u8>)> {
        spec_view(self.specialization)
    }

    /// Where the module stands.
    pub closed spec fn state(&self) -> ModuleState {
        self.state
    }

    /// Stage, bytecode, entry point and specialization agree.
    pub open spec fn same_contents(&self, o: ShaderStorage) -> bool {
        &&& self.stage() == o.stage()
        &&& self.spirv() == o.spirv()
        &&& self.entry() == o.entry()
        &&& self.specialization() == o.specialization()
    }

    /// An unloaded record of a stage.
    pub fn new(
        stage: Stage,
        spirv: Vec<u32>,
        entrypoint: String,
        specialization: Option<Specialization>,
    ) -> (r: ShaderStorage)
        ensures
            r.stage() == stage,
            r.spirv() == spirv@,
            r.entry() == entrypoint@,
            r.specialization() == spec_view(specialization),
            r.state() == ModuleState::Unloaded,
    {
        ShaderStorage { stage, spirv, entrypoint, specialization, state: ModuleState::Unloaded }
    }

    /// The current state of the module.
    pub fn module_state(&self) -> (r: ModuleState)
        ensures
            r == self.state(),
    {
        self.state
    }

    /// The entry point that a pipeline needs; fails unless the module is loaded.
    pub fn get_entry_point(&self) -> (r: Result<EntryPoint<'_>, ShaderError>)
        ensures
            self.state() is Loaded <==> r is Ok,
            r is Err ==> r == Err::<EntryPoint, ShaderError>(ShaderError::StageNotLoaded),
            r matches Ok(ep) ==> is_entry_of(ep, *self),
    {
        match self.state {
            ModuleState::Loaded(module) => {
                let specialization = match &self.specialization {
                    Some(s) => s.duplicate(),
                    None => Specialization::empty(),
                };
                Ok(EntryPoint { entry: self.entrypoint.as_str(), module, specialization })
            },
            _ => Err(ShaderError::StageNotLoaded),
        }
    }

    /// Creates the module from the bytecode. Fails with `DoubleCompile`, and
    /// leaves everything as it was, unless the module is unloaded; fails with
    /// `BackendCompileFailure`, leaving it unloaded, when the device refuses.
    /// The stored bytecode is what the device is asked for, and a module it
    /// makes is the one the record then holds.
    pub fn compile<D: Device>(&mut self, device: &mut LoggedDevice<D>) -> (r: Result<(), ShaderError>)
        ensures
            final(self).same_contents(*old(self)),
            old(self).state() != ModuleState::Unloaded ==> r == Err::<(), ShaderError>(
                ShaderError::DoubleCompile,
            ) && final(self).state() == old(self).state(),
            old(self).state() == ModuleState::Unloaded ==> (r is Ok <==> final(self).state() is Loaded),
            old(self).state() == ModuleState::Unloaded && r is Err ==> r == Err::<(), ShaderError>(
                ShaderError::BackendCompileFailure,
            ) && final(self).state() == ModuleState::Unloaded,
            old(self).state() != ModuleState::Unloaded ==> *final(self) == *old(self) && *final(device)
                == *old(device),
            old(self).state() == ModuleState::Unloaded ==> final(device).created() == old(
                device,
            ).created() + new_module(*old(self), *final(self)),
            old(self).state() == ModuleState::Unloaded ==> final(device).requested() == old(
                device,
            ).requested().push(old(self).spirv()),
            final(device).released() == old(device).released(),
    {
        match self.state {
            ModuleState::Unloaded => {},
            _ => {
                return Err(ShaderError::DoubleCompile);
            },
        }
        match device.create(self.spirv.as_slice()) {
            Ok(module) => {
                self.state = ModuleState::Loaded(module);
                Ok(())
            },
            Err(_) => Err(ShaderError::BackendCompileFailure),
        }
    }

    /// Releases a loaded module through the device and marks the record
    /// disposed; in any other state leaves the record and the device alone.
    pub fn dispose<D: Device>(&mut self, device: &mut LoggedDevice<D>)
        ensures
            final(self).same_contents(*old(self)),
            final(self).state() == after_dispose(old(self).state()),
            old(self).state() is Loaded ==> final(device).released() == old(device).released()
                + loaded_handle(*old(self)) && final(device).created() == old(device).created()
                && final(device).requested() == old(device).requested(),
            !(old(self).state() is Loaded) ==> *final(device) == *old(device),
    {
        match self.state {
            ModuleState::Loaded(module) => {
                device.destroy(module);
                self.state = ModuleState::Disposed;
            },
            _ => {},
        }
    }
}

} // verus!

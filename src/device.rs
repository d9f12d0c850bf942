//! The backend boundary: the device that creates and releases modules, and a
//! record of what this library asked of it.

use crate::error::ShaderError;
use vstd::prelude::*;

verus! {

/// A backend-owned compiled shader module, named by the device that made it.
#[derive(PartialEq, Eq, Structural, Clone, Copy, Debug, Hash)]
pub struct ModuleHandle {
    pub id: u64,
}

/// The backend that compiles bytecode into modules and releases them.
pub trait Device {
    /// Creates a module from bytecode words, or refuses the bytecode.
    fn create_shader_module(&mut self, spirv: &[u32]) -> Result<ModuleHandle, ShaderError>;

    /// Releases a module that this device created.
    fn destroy_shader_module(&mut self, module: ModuleHandle);
}

/// A device together with a record of the bytecode handed to it, of the
/// modules created through it, each with the bytecode it was made from, and
/// of the modules released through it, oldest first.
pub struct LoggedDevice<D: Device> {
    device: D,
    requested: Ghost<Seq<Seq<u32>>>,
    created: Ghost<Seq<(ModuleHandle, Seq<u32>)>>,
    released: Ghost<Seq<ModuleHandle>>,
}

impl<D: Device> LoggedDevice<D> {
    /// The bytecode handed to this device to create modules from, whether
    /// it made one or not.
    pub closed spec fn requested(&self) -> Seq<Seq<u32>> {
        self.requested@
    }

    /// The modules created through this device, with their bytecode.
    pub closed spec fn created(&self) -> Seq<(ModuleHandle, Seq<u32>)> {
        self.created@
    }

    /// The modules released through this device.
    pub closed spec fn released(&self) -> Seq<ModuleHandle> {
        self.released@
    }

    /// Starts a record of nothing created and nothing released.
    pub fn new(device: D) -> (r: LoggedDevice<D>)
        ensures
            r.requested() == Seq::<Seq<u32>>::empty(),
            r.created() == Seq::<(ModuleHandle, Seq<u32>)>::empty(),
            r.released() == Seq::<ModuleHandle>::empty(),
    {
        LoggedDevice {
            device,
            requested: Ghost(Seq::empty()),
            created: Ghost(Seq::empty()),
            released: Ghost(Seq::empty()),
        }
    }

    /// The device.
    pub fn device(&self) -> &D {
        &self.device
    }

    /// Gives the device back.
    pub fn into_inner(self) -> D {
        self.device
    }

    /// Asks the device for a module from `spirv`; a module it makes is
    /// recorded with that bytecode.
    pub fn create(&mut self, spirv: &[u32]) -> (r: Result<ModuleHandle, ShaderError>)
        ensures
            match r {
                Ok(h) => final(self).created() == old(self).created().push((h, spirv@)),
                Err(_) => final(self).created() == old(self).created(),
            },
            final(self).requested() == old(self).requested().push(spirv@),
            final(self).released() == old(self).released(),
    {
        let r = self.device.create_shader_module(spirv);
        self.requested = Ghost(self.requested@.push(spirv@));
        if let Ok(h) = r {
            self.created = Ghost(self.created@.push((h, spirv@)));
        }
        r
    }

    /// Asks the device to release `module`, and records it.
    pub fn destroy(&mut self, module: ModuleHandle)
        ensures
            final(self).released() == old(self).released().push(module),
            final(self).created() == old(self).created(),
            final(self).requested() == old(self).requested(),
    {
        self.device.destroy_shader_module(module);
        self.released = Ghost(self.released@.push(module));
    }
}

} // verus!

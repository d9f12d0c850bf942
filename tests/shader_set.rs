use rendy_shader::bytecode::{BytecodeBuffer, Stage};
use rendy_shader::error::ShaderError;
use rendy_shader::shader::{Shader, SpirvShader};
use rendy_shader::shader_set::{SpecConstantSet, ShaderSetBuilder};
use rendy_shader::device::{Device, LoggedDevice, ModuleHandle};
use rendy_shader::storage::{ModuleState, ShaderStorage, Specialization, SpecializationConstant};

/// A device that numbers its modules, remembers what it created and
/// released, and refuses bytecode whose first word is zero.
struct MockDevice {
    next: u64,
    created: Vec<(u64, Vec<u32>)>,
    destroyed: Vec<u64>,
}

impl MockDevice {
    fn new() -> Self {
        MockDevice { next: 100, created: Vec::new(), destroyed: Vec::new() }
    }

    fn handle_for(&self, words: &[u32]) -> ModuleHandle {
        let id = self.created.iter().find(|(_, w)| w.as_slice() == words).unwrap().0;
        ModuleHandle { id }
    }
}

impl Device for MockDevice {
    fn create_shader_module(&mut self, spirv: &[u32]) -> Result<ModuleHandle, ShaderError> {
        if spirv[0] == 0 {
            return Err(ShaderError::InvalidBytecode);
        }
        let id = self.next;
        self.next += 1;
        self.created.push((id, spirv.to_vec()));
        Ok(ModuleHandle { id })
    }

    fn destroy_shader_module(&mut self, module: ModuleHandle) {
        self.destroyed.push(module.id);
    }
}

fn shader(words: &[u32], stage: Stage, entry: &str) -> SpirvShader {
    SpirvShader::new(words.to_vec(), stage, entry).unwrap()
}

#[test]
fn from_bytes_round_trips() {
    let bytes: Vec<u8> = vec![0x03, 0x02, 0x23, 0x07, 0x00, 0x00, 0x01, 0x00, 0xff, 0x10, 0x20, 0x30];
    let b = BytecodeBuffer::from_bytes(&bytes).unwrap();
    assert_eq!(b.as_bytes(), bytes);
    assert_eq!(b.as_words(), &[0x07230203u32, 0x00010000, 0x302010ff][..]);
}

#[test]
fn from_bytes_rejects_bad_lengths() {
    assert!(matches!(BytecodeBuffer::from_bytes(&[]), Err(ShaderError::InvalidBytecode)));
    assert!(matches!(BytecodeBuffer::from_bytes(&[1, 2, 3]), Err(ShaderError::InvalidBytecode)));
    assert!(matches!(
        BytecodeBuffer::from_bytes(&[1, 2, 3, 4, 5]),
        Err(ShaderError::InvalidBytecode)
    ));
    assert!(matches!(
        BytecodeBuffer::from_bytes(&[1, 2, 3, 4, 5, 6, 7]),
        Err(ShaderError::InvalidBytecode)
    ));
}

#[test]
fn from_words_rejects_empty() {
    assert!(matches!(BytecodeBuffer::from_words(Vec::new()), Err(ShaderError::InvalidBytecode)));
    let b = BytecodeBuffer::from_words(vec![0x01020304]).unwrap();
    assert_eq!(b.as_bytes(), vec![4, 3, 2, 1]);
}

#[test]
fn spirv_shader_exposes_its_parts() {
    let s = SpirvShader::from_bytes(&[1, 0, 0, 0, 2, 0, 0, 0], Stage::Fragment, "main").unwrap();
    assert_eq!(Shader::spirv(&s).unwrap(), vec![1u32, 2]);
    assert_eq!(s.entry(), "main");
    assert_eq!(s.stage(), Stage::Fragment);
    assert!(matches!(SpirvShader::new(Vec::new(), Stage::Vertex, "main"), Err(ShaderError::InvalidBytecode)));
    assert!(matches!(
        SpirvShader::from_bytes(&[1, 2], Stage::Vertex, "main"),
        Err(ShaderError::InvalidBytecode)
    ));
}

#[test]
fn stage_flags() {
    assert_eq!(Stage::Vertex.flag(), 0x1);
    assert_eq!(Stage::Hull.flag(), 0x2);
    assert_eq!(Stage::Domain.flag(), 0x4);
    assert_eq!(Stage::Geometry.flag(), 0x8);
    assert_eq!(Stage::Fragment.flag(), 0x10);
    assert_eq!(Stage::Compute.flag(), 0x20);
}

#[test]
fn fragment_only_builder_fails() {
    let b = ShaderSetBuilder::new().with_fragment(&shader(&[7, 8], Stage::Fragment, "main")).unwrap();
    assert!(!b.has_vertex_or_compute());
    assert!(matches!(b.build(SpecConstantSet::new()), Err(ShaderError::MissingRequiredStage)));
    assert!(matches!(ShaderSetBuilder::default().build(SpecConstantSet::default()), Err(ShaderError::MissingRequiredStage)));
}

#[test]
fn vertex_only_builder_has_no_fragment() {
    let mut device = LoggedDevice::new(MockDevice::new());
    let b = ShaderSetBuilder::new().with_vertex(&shader(&[1, 2, 3], Stage::Vertex, "main")).unwrap();
    let mut set = b.build(SpecConstantSet::new()).unwrap();
    assert!(set.has_stage(Stage::Vertex));
    assert!(!set.has_stage(Stage::Fragment));
    set.load(&mut device).unwrap();
    let raw = set.raw().unwrap();
    assert!(raw.fragment.is_none());
    assert!(raw.domain.is_none());
    assert!(raw.hull.is_none());
    assert!(raw.geometry.is_none());
    assert_eq!(raw.vertex.entry, "main");
    assert_eq!(raw.vertex.module, ModuleHandle { id: 100 });
}

#[test]
fn dispose_twice_is_harmless() {
    let mut device = LoggedDevice::new(MockDevice::new());
    let b = ShaderSetBuilder::new()
        .with_vertex(&shader(&[1], Stage::Vertex, "main"))
        .unwrap()
        .with_fragment(&shader(&[2], Stage::Fragment, "main"))
        .unwrap();
    let mut set = b.build(SpecConstantSet::new()).unwrap();
    set.load(&mut device).unwrap();
    set.dispose(&mut device);
    assert_eq!(device.device().destroyed.len(), 2);
    assert_eq!(set.stage_state(Stage::Vertex), Some(ModuleState::Disposed));
    set.dispose(&mut device);
    assert_eq!(device.device().destroyed.len(), 2);
    assert_eq!(set.stage_state(Stage::Fragment), Some(ModuleState::Disposed));
    assert!(matches!(set.raw(), Err(ShaderError::StageNotLoaded)));
    assert!(matches!(set.load(&mut device), Err(ShaderError::DoubleCompile)));
}

#[test]
fn raw_before_load_fails() {
    let b = ShaderSetBuilder::new().with_vertex(&shader(&[1], Stage::Vertex, "main")).unwrap();
    let set = b.build(SpecConstantSet::new()).unwrap();
    assert_eq!(set.stage_state(Stage::Vertex), Some(ModuleState::Unloaded));
    assert!(matches!(set.raw(), Err(ShaderError::StageNotLoaded)));
}

#[test]
fn raw_without_vertex_fails() {
    let mut device = LoggedDevice::new(MockDevice::new());
    let b = ShaderSetBuilder::new().with_compute(&shader(&[5], Stage::Compute, "cs")).unwrap();
    let mut set = b.build(SpecConstantSet::new()).unwrap();
    set.load(&mut device).unwrap();
    assert_eq!(set.stage_state(Stage::Compute), Some(ModuleState::Loaded(ModuleHandle { id: 100 })));
    assert!(matches!(set.raw(), Err(ShaderError::MissingVertexShader)));
}

#[test]
fn vertex_and_fragment_scenario() {
    let mut device = LoggedDevice::new(MockDevice::new());
    let v = [0x07230203u32, 1, 2];
    let f = [0x07230203u32, 9, 9, 9];
    let b = ShaderSetBuilder::new()
        .with_vertex(&shader(&v, Stage::Vertex, "main"))
        .unwrap()
        .with_fragment(&shader(&f, Stage::Fragment, "main"))
        .unwrap();
    let mut set = b.build(SpecConstantSet::new()).unwrap();
    set.load(&mut device).unwrap();
    let raw = set.raw().unwrap();
    assert_eq!(raw.vertex.entry, "main");
    assert_eq!(raw.vertex.module, device.device().handle_for(&v));
    let frag = raw.fragment.as_ref().unwrap();
    assert_eq!(frag.entry, "main");
    assert_eq!(frag.module, device.device().handle_for(&f));
    assert_ne!(raw.vertex.module, frag.module);
    assert!(raw.domain.is_none());
    assert!(raw.hull.is_none());
    assert!(raw.geometry.is_none());
}

#[test]
fn later_with_replaces_earlier() {
    let mut device = LoggedDevice::new(MockDevice::new());
    let b = ShaderSetBuilder::new()
        .with_vertex(&shader(&[1], Stage::Vertex, "first"))
        .unwrap()
        .with_vertex(&shader(&[2], Stage::Vertex, "second"))
        .unwrap();
    let mut set = b.build(SpecConstantSet::new()).unwrap();
    set.load(&mut device).unwrap();
    assert_eq!(device.device().created.len(), 1);
    assert_eq!(device.device().created[0].1, vec![2u32]);
    assert_eq!(set.raw().unwrap().vertex.entry, "second");
}

#[test]
fn all_stages_are_built_and_loaded() {
    let mut device = LoggedDevice::new(MockDevice::new());
    let b = ShaderSetBuilder::new()
        .with_vertex(&shader(&[1], Stage::Vertex, "vs"))
        .unwrap()
        .with_fragment(&shader(&[2], Stage::Fragment, "fs"))
        .unwrap()
        .with_geometry(&shader(&[3], Stage::Geometry, "gs"))
        .unwrap()
        .with_hull(&shader(&[4], Stage::Hull, "hs"))
        .unwrap()
        .with_domain(&shader(&[5], Stage::Domain, "ds"))
        .unwrap()
        .with_compute(&shader(&[6], Stage::Compute, "cs"))
        .unwrap();
    let mut set = b.build(SpecConstantSet::new()).unwrap();
    set.load(&mut device).unwrap();
    assert_eq!(device.device().created.len(), 6);
    let raw = set.raw().unwrap();
    assert_eq!(raw.geometry.as_ref().unwrap().entry, "gs");
    assert_eq!(raw.hull.as_ref().unwrap().entry, "hs");
    assert_eq!(raw.domain.as_ref().unwrap().entry, "ds");
    assert_eq!(raw.fragment.as_ref().unwrap().entry, "fs");
}

#[test]
fn load_stops_at_refused_bytecode() {
    let mut device = LoggedDevice::new(MockDevice::new());
    let b = ShaderSetBuilder::new()
        .with_vertex(&shader(&[1], Stage::Vertex, "main"))
        .unwrap()
        .with_fragment(&shader(&[0], Stage::Fragment, "main"))
        .unwrap()
        .with_geometry(&shader(&[3], Stage::Geometry, "main"))
        .unwrap();
    let mut set = b.build(SpecConstantSet::new()).unwrap();
    assert!(matches!(set.load(&mut device), Err(ShaderError::BackendCompileFailure)));
    assert_eq!(set.stage_state(Stage::Vertex), Some(ModuleState::Loaded(ModuleHandle { id: 100 })));
    assert_eq!(set.stage_state(Stage::Fragment), Some(ModuleState::Unloaded));
    assert_eq!(set.stage_state(Stage::Geometry), Some(ModuleState::Unloaded));
    set.dispose(&mut device);
    assert_eq!(device.device().destroyed, vec![100]);
}

#[test]
fn storage_lifecycle() {
    let mut device = LoggedDevice::new(MockDevice::new());
    let mut st = ShaderStorage::new(Stage::Vertex, vec![1, 2], "main".to_string(), None);
    assert!(matches!(st.get_entry_point(), Err(ShaderError::StageNotLoaded)));
    st.dispose(&mut device);
    assert_eq!(st.module_state(), ModuleState::Unloaded);
    st.compile(&mut device).unwrap();
    assert!(matches!(st.compile(&mut device), Err(ShaderError::DoubleCompile)));
    let ep = st.get_entry_point().unwrap();
    assert_eq!(ep.entry, "main");
    assert_eq!(ep.module, ModuleHandle { id: 100 });
    assert!(ep.specialization.constants.is_empty());
    assert!(ep.specialization.data.is_empty());
    st.dispose(&mut device);
    assert_eq!(st.module_state(), ModuleState::Disposed);
    assert!(matches!(st.compile(&mut device), Err(ShaderError::DoubleCompile)));
    assert!(matches!(st.get_entry_point(), Err(ShaderError::StageNotLoaded)));
    assert_eq!(device.device().created.len(), 1);
}

#[test]
fn refused_compile_leaves_storage_unloaded() {
    let mut device = LoggedDevice::new(MockDevice::new());
    let mut st = ShaderStorage::new(Stage::Fragment, vec![0, 1], "main".to_string(), None);
    assert!(matches!(st.compile(&mut device), Err(ShaderError::BackendCompileFailure)));
    assert_eq!(st.module_state(), ModuleState::Unloaded);
}

#[test]
fn specialization_reaches_entry_point() {
    let mut device = LoggedDevice::new(MockDevice::new());
    let mut spec = SpecConstantSet::new();
    spec.vertex = Some(Specialization {
        constants: vec![SpecializationConstant { id: 3, offset: 0, size: 4 }],
        data: vec![1, 0, 0, 0],
    });
    let b = ShaderSetBuilder::new()
        .with_vertex(&shader(&[1], Stage::Vertex, "main"))
        .unwrap()
        .with_fragment(&shader(&[2], Stage::Fragment, "main"))
        .unwrap();
    let mut set = b.build(spec).unwrap();
    set.load(&mut device).unwrap();
    let raw = set.raw().unwrap();
    assert_eq!(raw.vertex.specialization.constants, vec![SpecializationConstant { id: 3, offset: 0, size: 4 }]);
    assert_eq!(raw.vertex.specialization.data, vec![1u8, 0, 0, 0]);
    let frag = raw.fragment.unwrap();
    assert!(frag.specialization.constants.is_empty());
    let copy = Specialization::empty().duplicate();
    assert!(copy.data.is_empty());
}

#[test]
fn shaders_compare_by_contents() {
    let a = shader(&[1, 2], Stage::Vertex, "main");
    let b = a.clone();
    assert_eq!(a, b);
    assert_eq!(b.bytecode().as_words(), &[1u32, 2][..]);
    assert_ne!(a, shader(&[1, 2], Stage::Fragment, "main"));
    assert_ne!(a, shader(&[1, 2], Stage::Vertex, "other"));
    assert_ne!(a, shader(&[1, 3], Stage::Vertex, "main"));
    assert!(shader(&[1], Stage::Vertex, "main") < shader(&[2], Stage::Vertex, "main"));
    let buf = BytecodeBuffer::from_words(vec![9, 8]).unwrap();
    assert_eq!(buf.clone().as_words(), buf.as_words());
}

#[test]
fn cloned_builder_builds_the_same_set() {
    let mut device = LoggedDevice::new(MockDevice::new());
    let b = ShaderSetBuilder::new().with_vertex(&shader(&[4, 4], Stage::Vertex, "vs")).unwrap();
    let c = b.clone();
    let mut set = c.build(SpecConstantSet::new()).unwrap();
    set.load(&mut device).unwrap();
    assert_eq!(set.raw().unwrap().vertex.entry, "vs");
    assert_eq!(device.device().created[0].1, vec![4u32, 4]);
    assert!(b.has_vertex_or_compute());
}

use rendy_shader::bytecode::Stage;
use rendy_shader::error::ShaderError;
use rendy_shader::reflect::{
    merge, Attribute, DescriptorBinding, DescriptorKind, PushConstantRange, StageReflection,
    VertexRate,
};
use rendy_shader::shader::SpirvShader;
use rendy_shader::shader_set::ShaderSetBuilder;

fn binding(set: u32, binding: u32, kind: DescriptorKind, stage: Stage) -> DescriptorBinding {
    DescriptorBinding { set, binding, kind, stages: stage.flag() }
}

fn reflection(stage: Stage, bindings: Vec<DescriptorBinding>) -> StageReflection {
    StageReflection { stage, attributes: Vec::new(), bindings, push_constants: Vec::new() }
}

#[test]
fn shared_binding_merges_visibility() {
    let rs = vec![
        reflection(Stage::Vertex, vec![binding(0, 1, DescriptorKind::UniformBuffer, Stage::Vertex)]),
        reflection(Stage::Fragment, vec![binding(0, 1, DescriptorKind::UniformBuffer, Stage::Fragment)]),
    ];
    let m = merge(&rs).unwrap();
    assert_eq!(m.bindings.len(), 1);
    assert_eq!(m.bindings[0].set, 0);
    assert_eq!(m.bindings[0].binding, 1);
    assert_eq!(m.bindings[0].kind, DescriptorKind::UniformBuffer);
    assert_eq!(m.bindings[0].stages, 0x11);
}

#[test]
fn shared_binding_kind_mismatch_conflicts() {
    let rs = vec![
        reflection(Stage::Vertex, vec![binding(0, 1, DescriptorKind::UniformBuffer, Stage::Vertex)]),
        reflection(Stage::Fragment, vec![binding(0, 1, DescriptorKind::SampledImage, Stage::Fragment)]),
    ];
    assert!(matches!(merge(&rs), Err(ShaderError::ReflectionConflict)));
}

#[test]
fn distinct_bindings_are_kept_in_order() {
    let rs = vec![
        reflection(
            Stage::Vertex,
            vec![
                binding(0, 0, DescriptorKind::UniformBuffer, Stage::Vertex),
                binding(1, 0, DescriptorKind::StorageBuffer, Stage::Vertex),
            ],
        ),
        reflection(
            Stage::Fragment,
            vec![
                binding(0, 1, DescriptorKind::CombinedImageSampler, Stage::Fragment),
                binding(0, 0, DescriptorKind::UniformBuffer, Stage::Fragment),
            ],
        ),
    ];
    let m = merge(&rs).unwrap();
    assert_eq!(
        m.bindings,
        vec![
            DescriptorBinding { set: 0, binding: 0, kind: DescriptorKind::UniformBuffer, stages: 0x11 },
            DescriptorBinding { set: 1, binding: 0, kind: DescriptorKind::StorageBuffer, stages: 0x1 },
            DescriptorBinding { set: 0, binding: 1, kind: DescriptorKind::CombinedImageSampler, stages: 0x10 },
        ]
    );
}

#[test]
fn attributes_come_from_vertex_stage() {
    let rs = vec![
        StageReflection {
            stage: Stage::Fragment,
            attributes: vec![Attribute { name: "color_out".to_string(), location: 0, format: 9 }],
            bindings: Vec::new(),
            push_constants: Vec::new(),
        },
        StageReflection {
            stage: Stage::Vertex,
            attributes: vec![
                Attribute { name: "position".to_string(), location: 0, format: 3 },
                Attribute { name: "uv".to_string(), location: 1, format: 2 },
            ],
            bindings: Vec::new(),
            push_constants: Vec::new(),
        },
    ];
    let m = merge(&rs).unwrap();
    assert_eq!(m.attributes.len(), 2);
    assert_eq!(m.attributes[0].name, "position");
    assert_eq!(m.attributes[1].name, "uv");
    assert_eq!(m.attributes[1].location, 1);
    let none = merge(&vec![rs.into_iter().next().unwrap()]).unwrap();
    assert!(none.attributes.is_empty());
}

#[test]
fn reflect_needs_vertex_or_compute() {
    let frag = SpirvShader::new(vec![1], Stage::Fragment, "main").unwrap();
    let b = ShaderSetBuilder::new().with_fragment(&frag).unwrap();
    assert!(matches!(b.reflect(&Vec::new()), Err(ShaderError::NoVertexOrComputeProvided)));
    let vert = SpirvShader::new(vec![1], Stage::Vertex, "main").unwrap();
    let b = b.with_vertex(&vert).unwrap();
    let rs = vec![
        reflection(Stage::Vertex, vec![binding(2, 3, DescriptorKind::Sampler, Stage::Vertex)]),
        reflection(Stage::Fragment, vec![binding(2, 3, DescriptorKind::Sampler, Stage::Fragment)]),
    ];
    let m = b.reflect(&rs).unwrap();
    assert_eq!(m.bindings, vec![DescriptorBinding { set: 2, binding: 3, kind: DescriptorKind::Sampler, stages: 0x11 }]);
    let bad = vec![
        reflection(Stage::Vertex, vec![binding(2, 3, DescriptorKind::Sampler, Stage::Vertex)]),
        reflection(Stage::Fragment, vec![binding(2, 3, DescriptorKind::StorageImage, Stage::Fragment)]),
    ];
    assert!(matches!(b.reflect(&bad), Err(ShaderError::ReflectionConflict)));
}

fn ranges(stage: Stage, rs: &[(u32, u32)]) -> StageReflection {
    StageReflection {
        stage,
        attributes: Vec::new(),
        bindings: Vec::new(),
        push_constants: rs
            .iter()
            .map(|&(offset, size)| PushConstantRange { stages: stage.flag(), offset, size })
            .collect(),
    }
}

#[test]
fn same_push_constant_range_is_shared() {
    let rs = vec![ranges(Stage::Vertex, &[(0, 16), (16, 8)]), ranges(Stage::Fragment, &[(0, 16), (32, 4)])];
    let m = merge(&rs).unwrap();
    assert_eq!(
        m.push_constants,
        vec![
            PushConstantRange { stages: 0x11, offset: 0, size: 16 },
            PushConstantRange { stages: 0x1, offset: 16, size: 8 },
            PushConstantRange { stages: 0x10, offset: 32, size: 4 },
        ]
    );
}

#[test]
fn overlapping_push_constant_ranges_conflict() {
    let rs = vec![ranges(Stage::Vertex, &[(0, 16)]), ranges(Stage::Fragment, &[(8, 16)])];
    assert!(matches!(merge(&rs), Err(ShaderError::ReflectionConflict)));
    let apart = vec![ranges(Stage::Vertex, &[(0, 16)]), ranges(Stage::Fragment, &[(16, 16)])];
    assert_eq!(merge(&apart).unwrap().push_constants.len(), 2);
}

#[test]
fn instance_attributes_by_range_and_name() {
    let rs = vec![StageReflection {
        stage: Stage::Vertex,
        attributes: vec![
            Attribute { name: "position".to_string(), location: 0, format: 3 },
            Attribute { name: "model".to_string(), location: 1, format: 4 },
            Attribute { name: "tint".to_string(), location: 2, format: 4 },
        ],
        bindings: Vec::new(),
        push_constants: Vec::new(),
    }];
    let m = merge(&rs).unwrap();
    let inst = m.attributes_range(1, 3, VertexRate::Instance);
    assert_eq!(inst.len(), 2);
    assert_eq!(inst[0].attribute.name, "model");
    assert_eq!(inst[1].attribute.location, 2);
    assert_eq!(inst[1].rate, VertexRate::Instance);
    assert!(m.attributes_range(2, 2, VertexRate::Vertex).is_empty());
    let tint = m.attribute_named("tint", VertexRate::Instance).unwrap();
    assert_eq!(tint.attribute.location, 2);
    assert_eq!(tint.rate, VertexRate::Instance);
    assert!(m.attribute_named("normal", VertexRate::Instance).is_none());
}

#[test]
fn reflect_needs_one_reflection_per_given_stage() {
    let vert = SpirvShader::new(vec![1], Stage::Vertex, "main").unwrap();
    let frag = SpirvShader::new(vec![2], Stage::Fragment, "main").unwrap();
    let b = ShaderSetBuilder::new().with_vertex(&vert).unwrap().with_fragment(&frag).unwrap();
    let missing = vec![reflection(Stage::Vertex, Vec::new())];
    assert!(matches!(b.reflect(&missing), Err(ShaderError::ReflectionStageMismatch)));
    let extra = vec![
        reflection(Stage::Vertex, Vec::new()),
        reflection(Stage::Fragment, Vec::new()),
        reflection(Stage::Geometry, Vec::new()),
    ];
    assert!(matches!(b.reflect(&extra), Err(ShaderError::ReflectionStageMismatch)));
    let twice = vec![
        reflection(Stage::Vertex, Vec::new()),
        reflection(Stage::Fragment, Vec::new()),
        reflection(Stage::Vertex, Vec::new()),
    ];
    assert!(matches!(b.reflect(&twice), Err(ShaderError::ReflectionStageMismatch)));
    let exact = vec![reflection(Stage::Fragment, Vec::new()), reflection(Stage::Vertex, Vec::new())];
    assert!(b.reflect(&exact).is_ok());
    assert!(b.has_slot(Stage::Fragment));
    assert!(!b.has_slot(Stage::Hull));
}

#[test]
fn attribute_named_takes_the_first() {
    let rs = vec![StageReflection {
        stage: Stage::Vertex,
        attributes: vec![
            Attribute { name: "a".to_string(), location: 0, format: 1 },
            Attribute { name: "b".to_string(), location: 1, format: 1 },
            Attribute { name: "b".to_string(), location: 2, format: 1 },
        ],
        bindings: Vec::new(),
        push_constants: Vec::new(),
    }];
    let m = merge(&rs).unwrap();
    assert_eq!(m.attribute_named("b", VertexRate::Vertex).unwrap().attribute.location, 1);
}

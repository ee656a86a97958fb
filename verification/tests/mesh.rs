use shinra::mesh::{mesh_fits, plan_mesh, ModelShape, VertexSource};

#[test]
fn shared_models_are_copied_and_their_indices_shifted() {
    let models = vec![
        ModelShape { positions: 3, has_normals: true, indices: vec![0, 1, 2] },
        ModelShape { positions: 4, has_normals: true, indices: vec![0, 1, 2, 2, 3, 0] },
    ];
    let plan = plan_mesh(&models);
    assert_eq!(plan.sources.len(), 7);
    assert_eq!(plan.sources[0], VertexSource::Shared { model: 0, index: 0 });
    assert_eq!(plan.sources[3], VertexSource::Shared { model: 1, index: 0 });
    assert_eq!(plan.sources[6], VertexSource::Shared { model: 1, index: 3 });
    assert_eq!(plan.indices, vec![0, 1, 2, 3, 4, 5, 5, 6, 3]);
}

#[test]
fn models_without_normals_become_flat_triangles() {
    let models = vec![ModelShape { positions: 4, has_normals: false, indices: vec![0, 1, 2, 2, 3, 0, 1] }];
    let plan = plan_mesh(&models);
    assert_eq!(plan.sources.len(), 6);
    assert_eq!(plan.sources[0], VertexSource::Corner { model: 0, position: 0, triangle: 0 });
    assert_eq!(plan.sources[4], VertexSource::Corner { model: 0, position: 3, triangle: 1 });
    assert_eq!(plan.indices, vec![0, 1, 2, 3, 4, 5]);
}

#[test]
fn mixed_models_follow_each_other() {
    let models = vec![
        ModelShape { positions: 3, has_normals: false, indices: vec![2, 1, 0] },
        ModelShape { positions: 2, has_normals: true, indices: vec![1, 0] },
    ];
    let plan = plan_mesh(&models);
    assert_eq!(plan.sources.len(), 5);
    assert_eq!(plan.sources[3], VertexSource::Shared { model: 1, index: 0 });
    assert_eq!(plan.indices, vec![0, 1, 2, 4, 3]);
    let max = *plan.indices.iter().max().unwrap() as usize;
    assert!(max < plan.sources.len());
}

#[test]
fn no_models_no_mesh() {
    let plan = plan_mesh(&Vec::new());
    assert!(plan.sources.is_empty());
    assert!(plan.indices.is_empty());
}

#[test]
fn models_that_cannot_be_planned_are_refused() {
    let ok = vec![ModelShape { positions: 3, has_normals: false, indices: vec![0, 1, 2, 7] }];
    assert!(mesh_fits(&ok));
    let bad_corner = vec![ModelShape { positions: 3, has_normals: false, indices: vec![0, 1, 3] }];
    assert!(!mesh_fits(&bad_corner));
    let too_far = vec![
        ModelShape { positions: 10, has_normals: true, indices: vec![] },
        ModelShape { positions: 1, has_normals: true, indices: vec![u32::MAX - 9] },
    ];
    assert!(!mesh_fits(&too_far));
    let just_fits = vec![
        ModelShape { positions: 10, has_normals: true, indices: vec![] },
        ModelShape { positions: 1, has_normals: true, indices: vec![u32::MAX - 10] },
    ];
    assert!(mesh_fits(&just_fits));
    let too_many = vec![ModelShape { positions: u32::MAX as usize + 1, has_normals: true, indices: vec![] }];
    assert!(!mesh_fits(&too_many));
    assert!(mesh_fits(&Vec::new()));
}

use shinra::exports::{meshes_count, meshes_path};

#[test]
fn mesh_paths_cross_the_boundary_clipped() {
    let paths = vec!["assets/bunny.obj".to_string(), "é.obj".to_string()];
    assert_eq!(meshes_count(&paths), 2);
    assert_eq!(meshes_path(&paths, 0, 256), b"assets/bunny.obj".to_vec());
    assert_eq!(meshes_path(&paths, 0, 6), b"assets".to_vec());
    assert_eq!(meshes_path(&paths, 0, 0), Vec::<u8>::new());
    assert_eq!(meshes_path(&paths, 1, 256), "é.obj".as_bytes().to_vec());
    assert_eq!(meshes_path(&paths, 1, 256).len(), 6);
    assert_eq!(meshes_path(&paths, 2, 256), Vec::<u8>::new());
}

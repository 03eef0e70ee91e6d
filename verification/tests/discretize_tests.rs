use gfd::discretize::{cell_neighbors, DiscretizationPipeline, ElementType, FaceCells};

#[test]
fn neighbors_from_interior_faces() {
    let faces = vec![
        FaceCells { owner_cell: 0, neighbor_cell: Some(1) },
        FaceCells { owner_cell: 2, neighbor_cell: Some(0) },
        FaceCells { owner_cell: 0, neighbor_cell: None },
        FaceCells { owner_cell: 0, neighbor_cell: Some(0) },
    ];
    assert_eq!(cell_neighbors(&vec![0, 1, 2, 3], &faces, 0), vec![1, 2]);
    assert_eq!(cell_neighbors(&vec![0], &faces, 1), vec![0]);
    assert_eq!(cell_neighbors(&vec![], &faces, 1), Vec::<usize>::new());
}

#[test]
fn pipeline_construction() {
    let a = DiscretizationPipeline::new();
    let b: DiscretizationPipeline = Default::default();
    assert_eq!(format!("{a:?}"), format!("{b:?}"));
}

#[test]
fn element_types_compare() {
    assert_eq!(ElementType::Hex27, ElementType::Hex27);
    assert_ne!(ElementType::Tri3, ElementType::Tri6);
}

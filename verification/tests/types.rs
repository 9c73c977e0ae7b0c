use pattern_maker::{BodyType, CollarType, NotInvertible, RootFindingNonConvergence, SleeveType};

#[test]
fn test_shirt_choices() {
    assert!(matches!(BodyType::Polo, BodyType::Polo));
    assert!(matches!(CollarType::Stand, CollarType::Stand));
    assert!(matches!(SleeveType::Short, SleeveType::Short));
}

#[test]
fn test_not_invertible() {
    let e = NotInvertible;
    let copy = e.clone();
    assert_eq!(format!("{:?}", copy), "NotInvertible");
}

#[test]
fn test_root_finding_non_convergence() {
    let e = RootFindingNonConvergence;
    let copy = e.clone();
    assert_eq!(format!("{:?}", copy), "RootFindingNonConvergence");
}

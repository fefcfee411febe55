use ergotree::registry::{
    SMethod, MethodLookupError, FLATMAP_METHOD_ID, INDEX_OF_METHOD_ID, INDICES_METHOD_ID, TYPE_ID,
    ZIP_METHOD_ID, coll_companion,
};
use ergotree::types::{SType, INT_CODE};

#[test]
fn test_from_ids() {
    assert!(SMethod::from_ids(TYPE_ID, INDEX_OF_METHOD_ID).map(|e| e.name()) == Ok("indexOf"));
    assert!(SMethod::from_ids(TYPE_ID, FLATMAP_METHOD_ID).map(|e| e.name()) == Ok("flatMap"));
    assert!(SMethod::from_ids(TYPE_ID, ZIP_METHOD_ID).map(|e| e.name()) == Ok("zip"));
    assert!(SMethod::from_ids(TYPE_ID, INDICES_METHOD_ID).map(|e| e.name()) == Ok("indices"));
}

#[test]
fn unknown_method_id_is_refused() {
    let r = SMethod::from_ids(TYPE_ID, 27).map(|e| e.name());
    assert_eq!(r, Err(MethodLookupError::UnknownMethod { type_id: TYPE_ID, method_id: 27 }));
}

#[test]
fn unknown_type_code_is_refused() {
    let r = SMethod::from_ids(INT_CODE, INDEX_OF_METHOD_ID).map(|e| e.name());
    assert_eq!(
        r,
        Err(MethodLookupError::UnknownMethod { type_id: INT_CODE, method_id: INDEX_OF_METHOD_ID })
    );
}

#[test]
fn companion_ids_are_unique_and_ordered() {
    let c = coll_companion();
    let ids: Vec<u8> = c.methods.iter().map(|d| d.method_id).collect();
    assert_eq!(ids, vec![26, 15, 14, 29]);
    assert_eq!(c.name, "Coll");
}

#[test]
fn method_ids_resolve_to_their_own_descriptor() {
    let m = SMethod::from_ids(TYPE_ID, ZIP_METHOD_ID).unwrap();
    assert_eq!(m.method_id(), 14);
    assert_eq!(m.method_raw.tpe.t_dom.len(), 2);
    match *m.method_raw.tpe.t_range {
        SType::SColl(ref e) => assert!(matches!(**e, SType::STuple(ref items) if items.len() == 2)),
        _ => panic!("zip returns a collection"),
    }
}

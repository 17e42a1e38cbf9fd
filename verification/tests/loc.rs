use lead_build::error::Loc;
use lead_build::path::VirtPath;

fn at(start: usize, end: usize) -> Loc {
    Loc::new(VirtPath::new("f"), start, end)
}

#[test]
fn loc_chain_links_the_site_to_what_it_resolved_to() {
    let r = Loc::chain(Some(at(10, 11)), Some(at(2, 5))).unwrap();
    assert_eq!((r.start, r.end), (10, 11));
    let via = r.via.unwrap();
    assert_eq!((via.start, via.end), (2, 5));
    assert!(via.via.is_none());
}

#[test]
fn loc_chain_keeps_whichever_side_is_present() {
    let r = Loc::chain(Some(at(1, 2)), None).unwrap();
    assert_eq!((r.start, r.end), (1, 2));
    assert!(r.via.is_none());
    let r = Loc::chain(None, Some(at(3, 4))).unwrap();
    assert_eq!((r.start, r.end), (3, 4));
    assert!(Loc::chain(None, None).is_none());
}

#[test]
fn loc_chains_nest() {
    let inner = Loc::chain(Some(at(5, 6)), Some(at(0, 1)));
    let outer = Loc::chain(Some(at(9, 10)), inner).unwrap();
    let mid = outer.via.as_ref().unwrap();
    assert_eq!(mid.start, 5);
    assert_eq!(mid.via.as_ref().unwrap().start, 0);
}

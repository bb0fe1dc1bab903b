use memscan::datamodel::{
    is_valid_render_view, CandidateStep, ChainStage, DataModelSearch, PointerChain, FAKE_DATAMODEL_OFFSET,
    REAL_DATAMODEL_OFFSET, RENDERVIEW_OFFSET,
};

#[test]
fn render_view_bounds_are_exclusive() {
    assert!(!is_valid_render_view(0x1_0000_0000));
    assert!(is_valid_render_view(0x1_0000_0001));
    assert!(is_valid_render_view(0x7FFF_FFFE_FFFE));
    assert!(!is_valid_render_view(0x7FFF_FFFE_FFFF));
    assert!(!is_valid_render_view(0));
}

#[test]
fn search_without_candidates_finds_nothing() {
    let s = DataModelSearch::new(vec![]);
    assert_eq!(s.next_step(), CandidateStep::NotFound);
}

#[test]
fn search_skips_unreadable_and_implausible_candidates() {
    let mut s = DataModelSearch::new(vec![0x1000, 0x2000, 0x3000]);
    assert_eq!(s.next_step(), CandidateStep::Probe { address: 0x1000 });
    s.on_probe(false);
    assert_eq!(s.next_step(), CandidateStep::Probe { address: 0x2000 });
    s.on_probe(true);
    assert_eq!(s.next_step(), CandidateStep::ReadRenderView { address: 0x2000 + RENDERVIEW_OFFSET });
    s.on_render_view(Some(0x10));
    assert_eq!(s.next_step(), CandidateStep::Probe { address: 0x3000 });
    s.on_probe(true);
    s.on_render_view(Some(0x2_0000_0000));
    assert_eq!(s.next_step(), CandidateStep::Found { datamodel: 0x3000 });
}

#[test]
fn search_ends_when_a_render_view_read_fails() {
    let mut s = DataModelSearch::new(vec![0x1000, 0x2000]);
    s.on_probe(true);
    s.on_render_view(None);
    assert_eq!(s.next_step(), CandidateStep::NotFound);
}

#[test]
fn search_runs_out_of_candidates() {
    let mut s = DataModelSearch::new(vec![0x1000]);
    s.on_probe(true);
    s.on_render_view(Some(1));
    assert_eq!(s.next_step(), CandidateStep::NotFound);
}

#[test]
fn pointer_chain_reads_three_slots() {
    let mut c = PointerChain::new(0x1000);
    assert_eq!(c.stage(), ChainStage::RenderView);
    assert_eq!(c.next_address(), Some(0x1000 + RENDERVIEW_OFFSET));
    c.on_pointer(0x5000);
    assert_eq!(c.stage(), ChainStage::FakeDataModel);
    assert_eq!(c.next_address(), Some(0x5000 + FAKE_DATAMODEL_OFFSET));
    c.on_pointer(0x9000);
    assert_eq!(c.next_address(), Some(0x9000 + REAL_DATAMODEL_OFFSET));
    c.on_pointer(0xABCD);
    assert_eq!(c.stage(), ChainStage::Resolved);
    assert_eq!(c.next_address(), None);
    assert_eq!(c.pointer(), 0xABCD);
}

use vstd::prelude::*;

verus! {

/// Offset of the render view pointer inside a data model candidate.
pub const RENDERVIEW_OFFSET: usize = 0x1E8;
/// Offset of the fake data model pointer inside the render view.
pub const FAKE_DATAMODEL_OFFSET: usize = 0x118;
/// Offset of the real data model pointer inside the fake data model.
pub const REAL_DATAMODEL_OFFSET: usize = 0x1A8;
/// How many bytes of a candidate are read to confirm that it is readable.
pub const PROBE_SIZE: usize = 0x200;

/// A render view pointer is accepted strictly between these two addresses.
pub const RENDER_VIEW_LOW: u64 = 0x0000_0001_0000_0000;
pub const RENDER_VIEW_HIGH: u64 = 0x0000_7FFF_FFFE_FFFF;

/// A plausible render view: strictly inside the user address range.
pub open spec fn plausible_render_view(address: usize) -> bool {
    RENDER_VIEW_LOW < address && address < RENDER_VIEW_HIGH
}

/// Whether a render view pointer read from a candidate is plausible.
pub fn is_valid_render_view(address: usize) -> (r: bool)
    ensures
        r == plausible_render_view(address),
{
    let a = address as u64;
    RENDER_VIEW_LOW < a && a < RENDER_VIEW_HIGH
}

/// What the data model search does next.
#[derive(Clone, Copy, Debug, PartialEq, Eq, Structural)]
pub enum CandidateStep {
    /// Read `PROBE_SIZE` bytes at this candidate to see that it is readable.
    Probe { address: usize },
    /// Read the render view pointer stored at this address.
    ReadRenderView { address: usize },
    /// This candidate is the data model.
    Found { datamodel: usize },
    /// No candidate is the data model.
    NotFound,
}

/// The state of a search: the candidates, the one under way, and the
/// next step.
pub struct SearchModel {
    pub candidates: Seq<usize>,
    pub index: int,
    pub step: CandidateStep,
}

/// The step that starts on candidate `index`, or the end of the search.
pub open spec fn step_from(candidates: Seq<usize>, index: int) -> CandidateStep {
    if 0 <= index < candidates.len() {
        CandidateStep::Probe { address: candidates[index] }
    } else {
        CandidateStep::NotFound
    }
}

impl SearchModel {
    /// The invariant of a search: the step concerns the current candidate.
    pub open spec fn wf(self) -> bool {
        &&& 0 <= self.index <= self.candidates.len()
        &&& match self.step {
            CandidateStep::Probe { address } => self.index < self.candidates.len() && address
                == self.candidates[self.index],
            CandidateStep::ReadRenderView { address } => self.index < self.candidates.len()
                && address == self.candidates[self.index] + RENDERVIEW_OFFSET,
            CandidateStep::Found { datamodel } => self.index < self.candidates.len()
                && datamodel == self.candidates[self.index],
            CandidateStep::NotFound => true,
        }
    }
}

/// Moves on to the next candidate.
pub open spec fn next_candidate(m: SearchModel) -> SearchModel {
    SearchModel { index: m.index + 1, step: step_from(m.candidates, m.index + 1), ..m }
}

/// The search after the probe of the current candidate: a readable one has
/// its render view read next, an unreadable one is skipped.
pub open spec fn after_probe(m: SearchModel, readable: bool) -> SearchModel {
    if readable {
        SearchModel {
            step: CandidateStep::ReadRenderView {
                address: (m.candidates[m.index] + RENDERVIEW_OFFSET) as usize,
            },
            ..m
        }
    } else {
        next_candidate(m)
    }
}

/// The search after reading the current candidate's render view pointer:
/// a failed read ends the search with no result, a plausible pointer makes
/// the candidate the data model, any other value skips it.
pub open spec fn after_render_view(m: SearchModel, value: Option<usize>) -> SearchModel {
    match value {
        None => SearchModel { step: CandidateStep::NotFound, ..m },
        Some(v) => if plausible_render_view(v) {
            SearchModel { step: CandidateStep::Found { datamodel: m.candidates[m.index] }, ..m }
        } else {
            next_candidate(m)
        },
    }
}

/// A probe keeps the search's invariant, never goes back to an earlier
/// candidate, and moves past the current one only when it is unreadable.
pub proof fn lemma_probe_keeps_invariant(m: SearchModel, readable: bool)
    requires
        m.wf(),
        m.step is Probe,
        readable ==> m.step->Probe_address + RENDERVIEW_OFFSET <= usize::MAX,
    ensures
        after_probe(m, readable).wf(),
        after_probe(m, readable).candidates == m.candidates,
        after_probe(m, readable).index == (if readable { m.index } else { m.index + 1 }),
{
}

/// A render view read keeps the search's invariant; the data model found
/// is the candidate whose render view was plausible, and the search moves
/// on only past a candidate with an implausible one.
pub proof fn lemma_render_view_keeps_invariant(m: SearchModel, value: Option<usize>)
    requires
        m.wf(),
        m.step is ReadRenderView,
    ensures
        after_render_view(m, value).wf(),
        after_render_view(m, value).candidates == m.candidates,
        after_render_view(m, value).step matches CandidateStep::Found { datamodel } ==> {
            &&& value matches Some(v) && plausible_render_view(v)
            &&& datamodel == m.candidates[m.index]
        },
        after_render_view(m, value).index == m.index + 1 ==> (value matches Some(v)
            && !plausible_render_view(v)),
{
}

/// A render view is accepted exactly when it lies strictly between
/// `0x1_0000_0000` and `0x7FFF_FFFE_FFFF`; null and kernel-range pointers
/// are not.
pub proof fn lemma_plausible_render_view_bounds(address: usize)
    ensures
        plausible_render_view(address) <==> (0x1_0000_0000 < address && address < 0x7FFF_FFFE_FFFF),
        !plausible_render_view(0),
{
}

/// What a probe answer does: a readable candidate has its render view
/// pointer read next, from the candidate's address plus `0x1E8`; an
/// unreadable one is passed over for the next candidate in the list, or the
/// search ends with nothing found after the last.
pub proof fn lemma_probe_answer(m: SearchModel, readable: bool)
    requires
        m.wf(),
        m.step is Probe,
        readable ==> m.step->Probe_address + RENDERVIEW_OFFSET <= usize::MAX,
    ensures
        ({
            let r = after_probe(m, readable);
            &&& r.candidates == m.candidates
            &&& readable ==> r.index == m.index && r.step == CandidateStep::ReadRenderView {
                address: (m.candidates[m.index] + 0x1E8) as usize,
            }
            &&& readable ==> r.step->ReadRenderView_address == m.candidates[m.index] + 0x1E8
            &&& !readable ==> r.index == m.index + 1
            &&& (!readable && m.index + 1 < m.candidates.len()) ==> r.step == CandidateStep::Probe {
                address: m.candidates[m.index + 1],
            }
            &&& (!readable && m.index + 1 >= m.candidates.len()) ==> r.step
                == CandidateStep::NotFound
        }),
{
}

/// What a render view answer does: a failed read ends the search with
/// nothing found; a pointer strictly between `0x1_0000_0000` and
/// `0x7FFF_FFFE_FFFF` makes the candidate the data model; any other pointer,
/// zero included, passes the candidate over for the next one in the list,
/// or ends the search with nothing found after the last.
pub proof fn lemma_render_view_answer(m: SearchModel, value: Option<usize>)
    requires
        m.wf(),
        m.step is ReadRenderView,
    ensures
        ({
            let r = after_render_view(m, value);
            &&& r.candidates == m.candidates
            &&& value is None ==> r.step == CandidateStep::NotFound
            &&& (value matches Some(v) && 0x1_0000_0000 < v && v < 0x7FFF_FFFE_FFFF) ==> r.step
                == CandidateStep::Found { datamodel: m.candidates[m.index] }
            &&& (value matches Some(v) && !(0x1_0000_0000 < v && v < 0x7FFF_FFFE_FFFF)) ==> {
                &&& r.index == m.index + 1
                &&& m.index + 1 < m.candidates.len() ==> r.step == CandidateStep::Probe {
                    address: m.candidates[m.index + 1],
                }
                &&& m.index + 1 >= m.candidates.len() ==> r.step == CandidateStep::NotFound
            }
        }),
{
}

/// The search, among the addresses where the data model pattern was found,
/// for the one that is the data model.
pub struct DataModelSearch {
    candidates: Vec<usize>,
    index: usize,
    step: CandidateStep,
}

impl View for DataModelSearch {
    type V = SearchModel;

    closed spec fn view(&self) -> SearchModel {
        SearchModel { candidates: self.candidates@, index: self.index as int, step: self.step }
    }
}

impl DataModelSearch {
    /// A search over `candidates`, in order, starting with the first.
    pub fn new(candidates: Vec<usize>) -> (s: Self)
        ensures
            s@.wf(),
            s@.candidates == candidates@,
            s@.index == 0,
            s@.step == step_from(candidates@, 0),
            candidates@.len() > 0 ==> s@.step == (CandidateStep::Probe { address: candidates@[0] }),
            candidates@.len() == 0 ==> s@.step == CandidateStep::NotFound,
    {
        let step = if candidates.len() > 0 {
            CandidateStep::Probe { address: candidates[0] }
        } else {
            CandidateStep::NotFound
        };
        DataModelSearch { candidates, index: 0, step }
    }

    /// The next step.
    pub fn next_step(&self) -> (c: CandidateStep)
        ensures
            c == self@.step,
    {
        self.step
    }

    fn advance(&mut self)
        requires
            old(self)@.wf(),
            old(self)@.index < old(self)@.candidates.len(),
        ensures
            final(self)@ == next_candidate(old(self)@),
            final(self)@.wf(),
    {
        let n = self.candidates.len();
        self.index = self.index + 1;
        if self.index < n {
            self.step = CandidateStep::Probe { address: self.candidates[self.index] };
        } else {
            self.step = CandidateStep::NotFound;
        }
    }

    /// Takes whether the probe read of the current candidate succeeded.
    pub fn on_probe(&mut self, readable: bool)
        requires
            old(self)@.wf(),
            old(self)@.step is Probe,
            readable ==> old(self)@.step->Probe_address + RENDERVIEW_OFFSET <= usize::MAX,
        ensures
            final(self)@ == after_probe(old(self)@, readable),
            final(self)@.wf(),
    {
        if readable {
            self.step = CandidateStep::ReadRenderView {
                address: self.candidates[self.index] + RENDERVIEW_OFFSET,
            };
        } else {
            self.advance();
        }
    }

    /// Takes the render view pointer read from the current candidate
    /// (`None` when the read failed).
    pub fn on_render_view(&mut self, value: Option<usize>)
        requires
            old(self)@.wf(),
            old(self)@.step is ReadRenderView,
        ensures
            final(self)@ == after_render_view(old(self)@, value),
            final(self)@.wf(),
    {
        match value {
            None => {
                self.step = CandidateStep::NotFound;
            },
            Some(v) => {
                if is_valid_render_view(v) {
                    self.step = CandidateStep::Found { datamodel: self.candidates[self.index] };
                } else {
                    self.advance();
                }
            },
        }
    }
}

/// The pointers followed from the data model to the real data model.
#[derive(Clone, Copy, Debug, PartialEq, Eq, Structural)]
pub enum ChainStage {
    /// The render view, read from the data model.
    RenderView,
    /// The fake data model, read from the render view.
    FakeDataModel,
    /// The real data model, read from the fake data model.
    RealDataModel,
    /// Every pointer has been read.
    Resolved,
}

/// The offset at which a stage's pointer is stored in the previous object.
pub open spec fn stage_offset(stage: ChainStage) -> nat {
    match stage {
        ChainStage::RenderView => RENDERVIEW_OFFSET as nat,
        ChainStage::FakeDataModel => FAKE_DATAMODEL_OFFSET as nat,
        ChainStage::RealDataModel => REAL_DATAMODEL_OFFSET as nat,
        ChainStage::Resolved => 0,
    }
}

/// The stage that follows a stage.
pub open spec fn stage_after(stage: ChainStage) -> ChainStage {
    match stage {
        ChainStage::RenderView => ChainStage::FakeDataModel,
        ChainStage::FakeDataModel => ChainStage::RealDataModel,
        _ => ChainStage::Resolved,
    }
}

/// The walk from the data model along its pointers: the stage reached and
/// the last pointer read (the data model itself at the start).
pub struct PointerChain {
    stage: ChainStage,
    pointer: usize,
}

impl PointerChain {
    pub closed spec fn stage_spec(&self) -> ChainStage {
        self.stage
    }

    pub closed spec fn pointer_spec(&self) -> usize {
        self.pointer
    }

    /// The invariant of a walk: the next pointer's slot is inside the
    /// address space.
    pub open spec fn wf(&self) -> bool {
        self.pointer_spec() + stage_offset(self.stage_spec()) <= usize::MAX
    }

    /// A walk that starts at the data model.
    pub fn new(datamodel: usize) -> (c: Self)
        requires
            datamodel + RENDERVIEW_OFFSET <= usize::MAX,
        ensures
            c.wf(),
            c.stage_spec() == ChainStage::RenderView,
            c.pointer_spec() == datamodel,
    {
        PointerChain { stage: ChainStage::RenderView, pointer: datamodel }
    }

    /// The pointer to read next.
    pub fn stage(&self) -> (s: ChainStage)
        ensures
            s == self.stage_spec(),
    {
        self.stage
    }

    /// The address to read the next pointer from; `None` once resolved.
    pub fn next_address(&self) -> (a: Option<usize>)
        requires
            self.wf(),
        ensures
            self.stage_spec() is Resolved ==> a is None,
            self.stage_spec() !is Resolved ==> a == Some(
                (self.pointer_spec() + stage_offset(self.stage_spec())) as usize,
            ),
    {
        match self.stage {
            ChainStage::RenderView => Some(self.pointer + RENDERVIEW_OFFSET),
            ChainStage::FakeDataModel => Some(self.pointer + FAKE_DATAMODEL_OFFSET),
            ChainStage::RealDataModel => Some(self.pointer + REAL_DATAMODEL_OFFSET),
            ChainStage::Resolved => None,
        }
    }

    /// The last pointer read: the real data model once resolved.
    pub fn pointer(&self) -> (p: usize)
        ensures
            p == self.pointer_spec(),
    {
        self.pointer
    }

    /// Takes the pointer read at `next_address`.
    pub fn on_pointer(&mut self, value: usize)
        requires
            old(self).wf(),
            old(self).stage_spec() !is Resolved,
            value + stage_offset(stage_after(old(self).stage_spec())) <= usize::MAX,
        ensures
            final(self).wf(),
            final(self).stage_spec() == stage_after(old(self).stage_spec()),
            final(self).pointer_spec() == value,
    {
        self.stage = match self.stage {
            ChainStage::RenderView => ChainStage::FakeDataModel,
            ChainStage::FakeDataModel => ChainStage::RealDataModel,
            _ => ChainStage::Resolved,
        };
        self.pointer = value;
    }
}

/// From the data model, the walk reads three pointers, at the render view
/// slot, then the fake data model slot, then the real data model slot, and
/// is then resolved.
pub proof fn lemma_chain_reads_three_pointers()
    ensures
        stage_offset(ChainStage::RenderView) == 0x1E8,
        stage_after(ChainStage::RenderView) == ChainStage::FakeDataModel,
        stage_offset(ChainStage::FakeDataModel) == 0x118,
        stage_after(ChainStage::FakeDataModel) == ChainStage::RealDataModel,
        stage_offset(ChainStage::RealDataModel) == 0x1A8,
        stage_after(ChainStage::RealDataModel) == ChainStage::Resolved,
{
}

} // verus!

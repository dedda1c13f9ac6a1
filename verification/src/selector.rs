//! Algorithm selector: every active algorithm encodes the frame, and the
//! shortest payload wins.
//!
//! The active algorithms form an ordered list. Those that have a payload for
//! the frame are the candidates, in the order of the list. The candidate with
//! the shortest payload is selected; among candidates of the same length the
//! one that comes first in the list wins.

use vstd::prelude::*;
use crate::algorithm::Algorithm;
use crate::container::EncodedFrame;
use crate::error::EncodeError;
use crate::error::SelectError;
use crate::frame::blank_frame;
use crate::frame::frame_size;
use crate::frame::matches_geometry;

verus! {

/// The candidates for a frame: for each algorithm of the list that has a
/// payload for the frame, the algorithm and its payload, in the order of the
/// list.
pub open spec fn candidates_of(
    algorithms: Seq<Algorithm>,
    current: Seq<u8>,
    last: Seq<u8>,
    width: u16,
    height: u16,
) -> Seq<(Algorithm, Seq<u8>)>
    decreases algorithms.len(),
{
    if algorithms.len() == 0 {
        Seq::empty()
    } else {
        let before = candidates_of(algorithms.drop_last(), current, last, width, height);
        match algorithms.last().encoding(current, last, width, height) {
            Ok(payload) => before.push((algorithms.last(), payload)),
            Err(_) => before,
        }
    }
}

/// Whether candidate `i` is the first of the shortest: no candidate has a
/// shorter payload, and every candidate before it has a longer one.
pub open spec fn is_first_min(candidates: Seq<(Algorithm, Seq<u8>)>, i: int) -> bool {
    &&& 0 <= i < candidates.len()
    &&& forall|j: int|
        0 <= j < candidates.len() ==> candidates[i].1.len() <= (#[trigger] candidates[j]).1.len()
    &&& forall|j: int| 0 <= j < i ==> (#[trigger] candidates[j]).1.len() > candidates[i].1.len()
}

/// The candidate that is selected: the first of the shortest.
pub open spec fn selection(candidates: Seq<(Algorithm, Seq<u8>)>) -> (Algorithm, Seq<u8>) {
    candidates[choose|i: int| is_first_min(candidates, i)]
}

/// What the selector makes of a frame: the selected algorithm with its
/// payload, or the reason why there is none.
///
/// Both frames must have `width * height` pixels, and at least one algorithm
/// of the list must have a payload for the frame.
pub open spec fn frame_choice(
    algorithms: Seq<Algorithm>,
    current: Seq<u8>,
    last: Seq<u8>,
    width: u16,
    height: u16,
) -> Result<(Algorithm, Seq<u8>), SelectError> {
    if current.len() != frame_size(width, height) || last.len() != frame_size(width, height) {
        Err(SelectError::GeometryMismatch)
    } else {
        let candidates = candidates_of(algorithms, current, last, width, height);
        if candidates.len() == 0 {
            Err(SelectError::NoCandidate)
        } else {
            Ok(selection(candidates))
        }
    }
}

/// The candidates as pairs of algorithm and payload.
pub open spec fn pairs_of(frames: Seq<EncodedFrame>) -> Seq<(Algorithm, Seq<u8>)> {
    Seq::new(frames.len(), |i: int| frames[i]@)
}

/// Only one candidate is the first of the shortest.
pub proof fn lemma_first_min_unique(candidates: Seq<(Algorithm, Seq<u8>)>, i: int, j: int)
    requires
        is_first_min(candidates, i),
        is_first_min(candidates, j),
    ensures
        i == j,
{
    if i < j {
        assert(candidates[i].1.len() > candidates[j].1.len());
        assert(candidates[j].1.len() <= candidates[i].1.len());
    } else if j < i {
        assert(candidates[j].1.len() > candidates[i].1.len());
        assert(candidates[i].1.len() <= candidates[j].1.len());
    }
}

/// The first of the shortest candidates is the one that is selected.
pub proof fn lemma_selection(candidates: Seq<(Algorithm, Seq<u8>)>, i: int)
    requires
        is_first_min(candidates, i),
    ensures
        selection(candidates) == candidates[i],
{
    let k = choose|k: int| is_first_min(candidates, k);
    lemma_first_min_unique(candidates, i, k);
}

/// Every candidate is an algorithm of the list with the payload that it has
/// for the frame, and every algorithm of the list that has a payload for the
/// frame is a candidate.
pub proof fn lemma_candidates(
    algorithms: Seq<Algorithm>,
    current: Seq<u8>,
    last: Seq<u8>,
    width: u16,
    height: u16,
)
    ensures
        forall|i: int|
            #![trigger candidates_of(algorithms, current, last, width, height)[i]]
            0 <= i < candidates_of(algorithms, current, last, width, height).len() ==> {
                let c = candidates_of(algorithms, current, last, width, height)[i];
                algorithms.contains(c.0) && c.0.encoding(current, last, width, height) == Ok::<
                    Seq<u8>,
                    EncodeError,
                >(c.1)
            },
        forall|k: int|
            #![trigger algorithms[k]]
            0 <= k < algorithms.len() && algorithms[k].encoding(current, last, width, height)
                is Ok ==> candidates_of(algorithms, current, last, width, height).contains(
                (algorithms[k], algorithms[k].encoding(current, last, width, height)->Ok_0),
            ),
    decreases algorithms.len(),
{
    let all = candidates_of(algorithms, current, last, width, height);
    if algorithms.len() > 0 {
        let front = algorithms.drop_last();
        let before = candidates_of(front, current, last, width, height);
        lemma_candidates(front, current, last, width, height);
        assert forall|i: int| 0 <= i < all.len() implies {
            let c = #[trigger] all[i];
            algorithms.contains(c.0) && c.0.encoding(current, last, width, height) == Ok::<
                Seq<u8>,
                EncodeError,
            >(c.1)
        } by {
            if i < before.len() {
                let c = before[i];
                let k = choose|k: int| 0 <= k < front.len() && front[k] == c.0;
                assert(algorithms[k] == c.0);
            } else {
                assert(algorithms[algorithms.len() - 1] == all[i].0);
            }
        }
        assert forall|k: int|
            0 <= k < algorithms.len() && (#[trigger] algorithms[k]).encoding(
                current,
                last,
                width,
                height,
            ) is Ok implies all.contains(
            (algorithms[k], algorithms[k].encoding(current, last, width, height)->Ok_0),
        ) by {
            let pair = (algorithms[k], algorithms[k].encoding(current, last, width, height)->Ok_0);
            if k < front.len() {
                assert(front[k] == algorithms[k]);
                let i = choose|i: int| 0 <= i < before.len() && before[i] == pair;
                assert(all[i] == pair);
            } else {
                assert(all[all.len() - 1] == pair);
            }
        }
    }
}

/// A frame that differs from the frame before it has no frame-repeat
/// candidate, so frame repeat is not selected for it.
pub proof fn lemma_no_repeat_candidate(
    algorithms: Seq<Algorithm>,
    current: Seq<u8>,
    last: Seq<u8>,
    width: u16,
    height: u16,
)
    requires
        current != last,
    ensures
        forall|i: int|
            0 <= i < candidates_of(algorithms, current, last, width, height).len() ==> (
            #[trigger] candidates_of(algorithms, current, last, width, height)[i]).0
                != Algorithm::Same,
        frame_choice(algorithms, current, last, width, height) matches Ok(chosen) ==> chosen.0
            != Algorithm::Same,
{
    let all = candidates_of(algorithms, current, last, width, height);
    lemma_candidates(algorithms, current, last, width, height);
    assert forall|i: int| 0 <= i < all.len() implies (#[trigger] all[i]).0 != Algorithm::Same by {
        assert(all[i].0.encoding(current, last, width, height) is Ok);
    }
    if frame_choice(algorithms, current, last, width, height) is Ok {
        lemma_first_min_exists(all);
        let i = choose|i: int| is_first_min(all, i);
        assert(selection(all) == all[i]);
    }
}

/// Among one or more candidates, one is the first of the shortest.
pub proof fn lemma_first_min_exists(candidates: Seq<(Algorithm, Seq<u8>)>)
    requires
        candidates.len() > 0,
    ensures
        exists|i: int| is_first_min(candidates, i),
    decreases candidates.len(),
{
    if candidates.len() == 1 {
        assert(is_first_min(candidates, 0));
    } else {
        let front = candidates.drop_last();
        lemma_first_min_exists(front);
        let i = choose|i: int| is_first_min(front, i);
        let n = candidates.len() - 1;
        if candidates[n].1.len() < candidates[i].1.len() {
            assert forall|j: int| 0 <= j < candidates.len() implies candidates[n].1.len() <= (
            #[trigger] candidates[j]).1.len() by {
                if j < n {
                    assert(front[j] == candidates[j]);
                }
            }
            assert forall|j: int| 0 <= j < n implies (#[trigger] candidates[j]).1.len()
                > candidates[n].1.len() by {
                assert(front[j] == candidates[j]);
            }
            assert(is_first_min(candidates, n));
        } else {
            assert forall|j: int| 0 <= j < candidates.len() implies candidates[i].1.len() <= (
            #[trigger] candidates[j]).1.len() by {
                if j < n {
                    assert(front[j] == candidates[j]);
                }
            }
            assert forall|j: int| 0 <= j < i implies (#[trigger] candidates[j]).1.len()
                > candidates[i].1.len() by {
                assert(front[j] == candidates[j]);
            }
            assert(is_first_min(candidates, i));
        }
    }
}

/// Runs every algorithm of the list on the frame and collects the payloads
/// of those that have one, in the order of the list.
pub fn collect_candidates(
    algorithms: &Vec<Algorithm>,
    current: &Vec<u8>,
    last: &Vec<u8>,
    width: u16,
    height: u16,
) -> (candidates: Vec<EncodedFrame>)
    ensures
        pairs_of(candidates@) == candidates_of(algorithms@, current@, last@, width, height),
{
    let mut candidates: Vec<EncodedFrame> = Vec::with_capacity(algorithms.len());
    let mut k: usize = 0;
    while k < algorithms.len()
        invariant
            k <= algorithms@.len(),
            pairs_of(candidates@) == candidates_of(
                algorithms@.take(k as int),
                current@,
                last@,
                width,
                height,
            ),
        decreases algorithms@.len() - k,
    {
        let algorithm = algorithms[k];
        let ghost before = pairs_of(candidates@);
        assert(algorithms@.take(k + 1).drop_last() =~= algorithms@.take(k as int));
        match algorithm.encode(current, last, width, height) {
            Ok(payload) => {
                candidates.push(EncodedFrame { algorithm, payload });
                assert(pairs_of(candidates@) =~= before.push((algorithm, payload@)));
            },
            Err(_) => {},
        }
        k += 1;
    }
    assert(algorithms@.take(algorithms@.len() as int) =~= algorithms@);
    candidates
}

/// The place of the first of the shortest candidates, or nothing if there is
/// no candidate.
pub fn smallest(candidates: &Vec<EncodedFrame>) -> (place: Option<usize>)
    ensures
        candidates@.len() == 0 ==> place is None,
        candidates@.len() > 0 ==> place is Some && is_first_min(
            pairs_of(candidates@),
            place->Some_0 as int,
        ),
{
    if candidates.len() == 0 {
        return None;
    }
    let mut best: usize = 0;
    let mut k: usize = 1;
    while k < candidates.len()
        invariant
            0 <= best < k <= candidates@.len(),
            forall|j: int| 0 <= j < k ==> candidates@[best as int].payload@.len() <= (
            #[trigger] candidates@[j]).payload@.len(),
            forall|j: int| 0 <= j < best ==> (#[trigger] candidates@[j]).payload@.len()
                > candidates@[best as int].payload@.len(),
        decreases candidates@.len() - k,
    {
        if candidates[k].payload.len() < candidates[best].payload.len() {
            best = k;
        }
        k += 1;
    }
    proof {
        let pairs = pairs_of(candidates@);
        assert forall|j: int| 0 <= j < pairs.len() implies pairs[best as int].1.len() <= (
        #[trigger] pairs[j]).1.len() by {
            assert(candidates@[best as int].payload@.len() <= candidates@[j].payload@.len());
        }
        assert forall|j: int| 0 <= j < best implies (#[trigger] pairs[j]).1.len() > pairs[best as int].1.len() by {
            assert(candidates@[j].payload@.len() > candidates@[best as int].payload@.len());
        }
    }
    Some(best)
}

/// Encodes a frame with every algorithm of the list and keeps the shortest
/// payload, the first one among equals.
pub fn select_frame(
    algorithms: &Vec<Algorithm>,
    current: &Vec<u8>,
    last: &Vec<u8>,
    width: u16,
    height: u16,
) -> (result: Result<EncodedFrame, SelectError>)
    ensures
        match frame_choice(algorithms@, current@, last@, width, height) {
            Ok(chosen) => result is Ok && result->Ok_0@ == chosen,
            Err(error) => result is Err && result->Err_0 == error,
        },
{
    if !matches_geometry(current, width, height) || !matches_geometry(last, width, height) {
        return Err(SelectError::GeometryMismatch);
    }
    let mut candidates = collect_candidates(algorithms, current, last, width, height);
    match smallest(&candidates) {
        None => Err(SelectError::NoCandidate),
        Some(place) => {
            proof {
                lemma_selection(pairs_of(candidates@), place as int);
            }
            Ok(candidates.swap_remove(place))
        },
    }
}

/// Number of algorithm codes, and of usage counters.
pub const CODES: usize = 6;

/// What a selector holds: the geometry, the active algorithms in the order
/// in which ties are decided, the frame before the next one, and for each
/// algorithm code the number of frames for which it was selected.
pub struct SelectorView {
    pub width: u16,
    pub height: u16,
    pub algorithms: Seq<Algorithm>,
    pub last_frame: Seq<u8>,
    pub usage: Seq<u64>,
}

impl SelectorView {
    /// The last frame has the selector's geometry, and there is one counter
    /// for each algorithm code.
    pub open spec fn wf(self) -> bool {
        &&& self.last_frame.len() == frame_size(self.width, self.height)
        &&& self.usage.len() == CODES
    }

    /// Every counter can count one more frame.
    pub open spec fn has_room(self) -> bool {
        forall|code: int| 0 <= code < self.usage.len() ==> #[trigger] self.usage[code] < u64::MAX
    }

    /// The selector before the first frame: the last frame is all zero, and
    /// so are the counters.
    pub open spec fn initial(width: u16, height: u16, algorithms: Seq<Algorithm>) -> SelectorView {
        SelectorView {
            width,
            height,
            algorithms,
            last_frame: Seq::new(frame_size(width, height) as nat, |i: int| 0u8),
            usage: Seq::new(CODES as nat, |i: int| 0u64),
        }
    }

    /// The selector after `frame`, for which `chosen` was selected: the frame
    /// is the last one, and the counter of `chosen` is one higher.
    pub open spec fn after(self, frame: Seq<u8>, chosen: Algorithm) -> SelectorView {
        SelectorView {
            last_frame: frame,
            usage: self.usage.update(
                chosen.tag() as int,
                (self.usage[chosen.tag() as int] + 1) as u64,
            ),
            ..self
        }
    }

    /// What the selector makes of the next frame.
    pub open spec fn choice(self, frame: Seq<u8>) -> Result<(Algorithm, Seq<u8>), SelectError> {
        frame_choice(self.algorithms, frame, self.last_frame, self.width, self.height)
    }
}

/// The selector's state between two frames: the frame before and the usage
/// counters, with the geometry and the active algorithms.
pub struct Selector {
    width: u16,
    height: u16,
    algorithms: Vec<Algorithm>,
    last_pixels: Vec<u8>,
    statistics: Vec<u64>,
}

impl View for Selector {
    type V = SelectorView;

    closed spec fn view(&self) -> SelectorView {
        SelectorView {
            width: self.width,
            height: self.height,
            algorithms: self.algorithms@,
            last_frame: self.last_pixels@,
            usage: self.statistics@,
        }
    }
}

impl Selector {
    /// A selector for a video of the given geometry, before its first frame.
    /// The frame before the first one counts as all zero.
    pub fn new(width: u16, height: u16, algorithms: Vec<Algorithm>) -> (selector: Selector)
        ensures
            selector@ == SelectorView::initial(width, height, algorithms@),
            selector@.wf(),
            selector@.has_room(),
    {
        let mut statistics: Vec<u64> = Vec::with_capacity(CODES);
        let mut code: usize = 0;
        while code < CODES
            invariant
                code <= CODES,
                statistics@.len() == code,
                forall|i: int| 0 <= i < code ==> #[trigger] statistics@[i] == 0,
            decreases CODES - code,
        {
            statistics.push(0);
            code += 1;
        }
        let last_pixels = blank_frame(width, height);
        let selector = Selector { width, height, algorithms, last_pixels, statistics };
        assert(selector@.last_frame =~= SelectorView::initial(width, height, algorithms@).last_frame);
        assert(selector@.usage =~= SelectorView::initial(width, height, algorithms@).usage);
        selector
    }

    /// Selects the encoding of the next frame. On success the frame becomes
    /// the last frame and the selected algorithm's counter goes up by one;
    /// on failure the selector stays as it was.
    pub fn encode_frame(&mut self, pixels: &Vec<u8>) -> (result: Result<EncodedFrame, SelectError>)
        requires
            old(self)@.wf(),
            old(self)@.has_room(),
        ensures
            final(self)@.wf(),
            match old(self)@.choice(pixels@) {
                Ok(chosen) => result is Ok && result->Ok_0@ == chosen && final(self)@ == old(
                    self,
                )@.after(pixels@, chosen.0),
                Err(error) => result is Err && result->Err_0 == error && final(self)@ == old(
                    self,
                )@,
            },
    {
        match select_frame(&self.algorithms, pixels, &self.last_pixels, self.width, self.height) {
            Ok(frame) => {
                let code = frame.algorithm.code() as usize;
                let count = self.statistics[code];
                self.statistics.set(code, count + 1);
                self.last_pixels = pixels.clone();
                assert(self.last_pixels@ =~= pixels@);
                Ok(frame)
            },
            Err(error) => Err(error),
        }
    }

    /// Number of frames for which the algorithm was selected.
    pub fn usage(&self, algorithm: Algorithm) -> (count: u64)
        requires
            self@.wf(),
        ensures
            count == self@.usage[algorithm.tag() as int],
    {
        self.statistics[algorithm.code() as usize]
    }

    /// The frame before the next one: the last frame that was encoded, or
    /// the all-zero frame.
    pub fn last_frame(&self) -> (pixels: &Vec<u8>)
        ensures
            pixels@ == self@.last_frame,
    {
        &self.last_pixels
    }

    /// The active algorithms, in the order in which ties are decided.
    pub fn algorithms(&self) -> (list: &Vec<Algorithm>)
        ensures
            list@ == self@.algorithms,
    {
        &self.algorithms
    }
}

} // verus!

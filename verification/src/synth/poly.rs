//! Allocating voices to notes.

use vstd::prelude::*;

use super::voice::{VoiceSlot, VoiceState, VoiceView};

verus! {

/// The values of a list of voices.
pub open spec fn voices_view(voices: Seq<VoiceSlot>) -> Seq<VoiceView> {
    voices.map_values(|v: VoiceSlot| v@)
}

/// Every voice is well formed.
pub open spec fn all_well_formed(voices: Seq<VoiceView>) -> bool {
    forall|i: int| 0 <= i < voices.len() ==> (#[trigger] voices[i]).well_formed()
}

/// The voice a new note takes: `i` is the first free voice; or, when no
/// voice is free, `i` is the releasing voice that started earliest (the first
/// of them on a tie).
pub open spec fn is_allocation(voices: Seq<VoiceView>, i: int) -> bool {
    &&& 0 <= i < voices.len()
    &&& if voices[i].state == VoiceState::Free {
        forall|j: int| 0 <= j < i ==> (#[trigger] voices[j]).state != VoiceState::Free
    } else {
        &&& voices[i].state == VoiceState::Releasing
        &&& forall|j: int| 0 <= j < voices.len() ==> (#[trigger] voices[j]).state != VoiceState::Free
        &&& forall|j: int|
            0 <= j < voices.len() && (#[trigger] voices[j]).state == VoiceState::Releasing ==> voices[i].age
                <= voices[j].age
        &&& forall|j: int|
            0 <= j < i && (#[trigger] voices[j]).state == VoiceState::Releasing ==> voices[i].age < voices[j].age
    }
}

/// Every voice is playing: no voice is free and none is releasing.
pub open spec fn all_playing(voices: Seq<VoiceView>) -> bool {
    forall|j: int| 0 <= j < voices.len() ==> (#[trigger] voices[j]).state == VoiceState::Active
}

/// The voice that a note-off for `note` goes to: the first sounding voice
/// that plays `note`.
pub open spec fn is_voice_of(voices: Seq<VoiceView>, note: u8, i: int) -> bool {
    &&& 0 <= i < voices.len()
    &&& voices[i].note == note
    &&& voices[i].sounding()
    &&& forall|j: int| 0 <= j < i ==> !((#[trigger] voices[j]).note == note && voices[j].sounding())
}

/// No sounding voice plays `note`.
pub open spec fn no_voice_of(voices: Seq<VoiceView>, note: u8) -> bool {
    forall|j: int| 0 <= j < voices.len() ==> !((#[trigger] voices[j]).note == note && voices[j].sounding())
}

/// The voice a new note should take: the first free voice, else the
/// releasing voice that started earliest; `None` when every voice is playing.
pub fn allocate_voice(voices: &Vec<VoiceSlot>) -> (r: Option<usize>)
    ensures
        match r {
            Some(i) => is_allocation(voices_view(voices@), i as int),
            None => all_playing(voices_view(voices@)),
        },
{
    let ghost vs = voices_view(voices@);
    let n = voices.len();
    for i in 0..n
        invariant
            n == voices@.len(),
            vs == voices_view(voices@),
            forall|j: int| 0 <= j < i ==> (#[trigger] vs[j]).state != VoiceState::Free,
    {
        if voices[i].is_free() {
            return Some(i);
        }
    }
    let mut best: Option<usize> = None;
    for i in 0..n
        invariant
            n == voices@.len(),
            vs == voices_view(voices@),
            forall|j: int| 0 <= j < n ==> (#[trigger] vs[j]).state != VoiceState::Free,
            match best {
                Some(b) => {
                    &&& b < i
                    &&& vs[b as int].state == VoiceState::Releasing
                    &&& forall|j: int|
                        0 <= j < i && (#[trigger] vs[j]).state == VoiceState::Releasing ==> vs[b as int].age
                            <= vs[j].age
                    &&& forall|j: int|
                        0 <= j < b && (#[trigger] vs[j]).state == VoiceState::Releasing ==> vs[b as int].age
                            < vs[j].age
                },
                None => forall|j: int| 0 <= j < i ==> (#[trigger] vs[j]).state != VoiceState::Releasing,
            },
    {
        if voices[i].state() == VoiceState::Releasing {
            match best {
                Some(b) => {
                    if voices[i].age() < voices[b].age() {
                        best = Some(i);
                    }
                },
                None => {
                    best = Some(i);
                },
            }
        }
    }
    proof {
        if best is None {
            assert forall|j: int| 0 <= j < vs.len() implies (#[trigger] vs[j]).state == VoiceState::Active by {
                assert(vs[j].state != VoiceState::Free && vs[j].state != VoiceState::Releasing);
            }
        }
    }
    best
}

/// The first sounding voice that plays `note`, if any.
pub fn find_voice(voices: &Vec<VoiceSlot>, note: u8) -> (r: Option<usize>)
    ensures
        match r {
            Some(i) => is_voice_of(voices_view(voices@), note, i as int),
            None => no_voice_of(voices_view(voices@), note),
        },
{
    let ghost vs = voices_view(voices@);
    let n = voices.len();
    for i in 0..n
        invariant
            n == voices@.len(),
            vs == voices_view(voices@),
            forall|j: int| 0 <= j < i ==> !((#[trigger] vs[j]).note == note && vs[j].sounding()),
    {
        if voices[i].note() == note && voices[i].is_active() {
            return Some(i);
        }
    }
    None
}

/// A note-on: start the note on the voice that `allocate_voice` picks and
/// return that voice, or leave every voice as it was when all are playing.
pub fn note_on(voices: &mut Vec<VoiceSlot>, note: u8, velocity: u8, age: u64) -> (r: Option<usize>)
    ensures
        final(voices)@.len() == old(voices)@.len(),
        match r {
            Some(i) => {
                &&& is_allocation(voices_view(old(voices)@), i as int)
                &&& voices_view(final(voices)@) == voices_view(old(voices)@).update(
                    i as int,
                    voices_view(old(voices)@)[i as int].started(note, velocity, age),
                )
            },
            None => {
                &&& all_playing(voices_view(old(voices)@))
                &&& final(voices)@ == old(voices)@
            },
        },
        all_well_formed(voices_view(old(voices)@)) ==> all_well_formed(voices_view(final(voices)@)),
{
    let choice = allocate_voice(voices);
    match choice {
        Some(i) => {
            let mut v = voices[i];
            v.start(note, velocity, age);
            voices.set(i, v);
            proof {
                assert(voices_view(voices@) =~= voices_view(old(voices)@).update(
                    i as int,
                    voices_view(old(voices)@)[i as int].started(note, velocity, age),
                ));
            }
        },
        None => {},
    }
    choice
}

/// A note-off: release the first sounding voice that plays `note`. Returns
/// that voice when it was playing, so that its sound gets the note-off; a
/// voice already releasing is left as it is.
pub fn note_off(voices: &mut Vec<VoiceSlot>, note: u8) -> (r: Option<usize>)
    ensures
        final(voices)@.len() == old(voices)@.len(),
        match find_result(voices_view(old(voices)@), note) {
            Some(i) => {
                &&& voices_view(final(voices)@) == voices_view(old(voices)@).update(
                    i,
                    voices_view(old(voices)@)[i].released(),
                )
                &&& r == if voices_view(old(voices)@)[i].state == VoiceState::Active {
                    Some(i as usize)
                } else {
                    None::<usize>
                }
            },
            None => final(voices)@ == old(voices)@ && r is None,
        },
        all_well_formed(voices_view(old(voices)@)) ==> all_well_formed(voices_view(final(voices)@)),
{
    let found = find_voice(voices, note);
    proof {
        lemma_find_result(voices_view(voices@), note, found);
    }
    match found {
        Some(i) => {
            let mut v = voices[i];
            let sent = v.release();
            voices.set(i, v);
            proof {
                assert(voices_view(voices@) =~= voices_view(old(voices)@).update(
                    i as int,
                    voices_view(old(voices)@)[i as int].released(),
                ));
            }
            if sent {
                Some(i)
            } else {
                None
            }
        },
        None => None,
    }
}

/// The voice that a note-off for `note` goes to, if any.
pub open spec fn find_result(voices: Seq<VoiceView>, note: u8) -> Option<int> {
    if exists|i: int| is_voice_of(voices, note, i) {
        Some(choose|i: int| is_voice_of(voices, note, i))
    } else {
        None
    }
}

proof fn lemma_find_result(voices: Seq<VoiceView>, note: u8, found: Option<usize>)
    requires
        match found {
            Some(i) => is_voice_of(voices, note, i as int),
            None => no_voice_of(voices, note),
        },
    ensures
        find_result(voices, note) == match found {
            Some(i) => Some(i as int),
            None => None::<int>,
        },
{
    match found {
        Some(i) => {
            let c = choose|k: int| is_voice_of(voices, note, k);
            assert(is_voice_of(voices, note, c));
            if c < i {
                assert(!(voices[c].note == note && voices[c].sounding()));
            } else if c > i {
                assert(!(voices[i as int].note == note && voices[i as int].sounding()));
            }
        },
        None => {
            if exists|k: int| is_voice_of(voices, note, k) {
                let c = choose|k: int| is_voice_of(voices, note, k);
                assert(!(voices[c].note == note && voices[c].sounding()));
            }
        },
    }
}

/// Release voice `i` (for an all-notes-off, voice by voice): a playing
/// voice starts releasing, any other voice stays as it is. Returns whether it
/// was playing, in which case its sound gets the note-off.
pub fn release_voice(voices: &mut Vec<VoiceSlot>, i: usize) -> (sent: bool)
    requires
        i < old(voices)@.len(),
    ensures
        final(voices)@.len() == old(voices)@.len(),
        voices_view(final(voices)@) == voices_view(old(voices)@).update(
            i as int,
            voices_view(old(voices)@)[i as int].released(),
        ),
        sent == (voices_view(old(voices)@)[i as int].state == VoiceState::Active),
        all_well_formed(voices_view(old(voices)@)) ==> all_well_formed(voices_view(final(voices)@)),
{
    let mut v = voices[i];
    let sent = v.release();
    voices.set(i, v);
    proof {
        assert(voices_view(voices@) =~= voices_view(old(voices)@).update(
            i as int,
            voices_view(old(voices)@)[i as int].released(),
        ));
    }
    sent
}

/// Release every playing voice (an all-notes-off for the whole bank).
/// Returns, in order, the voices that were playing, whose sounds get the
/// note-off; voices that were free or already releasing are unchanged.
pub fn all_notes_off(voices: &mut Vec<VoiceSlot>) -> (released: Vec<usize>)
    ensures
        voices_view(final(voices)@) == voices_view(old(voices)@).map_values(|v: VoiceView| v.released()),
        forall|k: int| 0 <= k < released@.len() ==> (#[trigger] released@[k]) < old(voices)@.len(),
        forall|j: int|
            0 <= j < old(voices)@.len() ==> (voices_view(old(voices)@)[j].state == VoiceState::Active
                <==> released@.contains(j as usize)),
        forall|a: int, b: int| 0 <= a < b < released@.len() ==> released@[a] < released@[b],
        all_well_formed(voices_view(old(voices)@)) ==> all_well_formed(voices_view(final(voices)@)),
{
    let ghost before = voices_view(voices@);
    let n = voices.len();
    let mut released: Vec<usize> = Vec::new();
    for i in 0..n
        invariant
            n == voices@.len(),
            before.len() == n,
            before == voices_view(old(voices)@),
            forall|j: int|
                0 <= j < n ==> #[trigger] voices_view(voices@)[j] == if j < i {
                    before[j].released()
                } else {
                    before[j]
                },
            forall|k: int| 0 <= k < released@.len() ==> (#[trigger] released@[k]) < i,
            forall|j: int| 0 <= j < i ==> (before[j].state == VoiceState::Active <==> released@.contains(j as usize)),
            forall|a: int, b: int| 0 <= a < b < released@.len() ==> released@[a] < released@[b],
    {
        let ghost old_rel = released@;
        let ghost old_view = voices_view(voices@);
        proof {
            assert(old_view[i as int] == before[i as int]);
        }
        if release_voice(voices, i) {
            released.push(i);
        }
        proof {
            assert(voices_view(voices@) =~= old_view.update(i as int, before[i as int].released()));
            assert(before[i as int].state == VoiceState::Active ==> released@ == old_rel.push(i));
            assert(before[i as int].state != VoiceState::Active ==> released@ == old_rel);
            assert forall|j: int| 0 <= j < i + 1 implies (before[j].state == VoiceState::Active
                <==> released@.contains(j as usize)) by {
                if j < i {
                    if old_rel.contains(j as usize) {
                        let k = choose|k: int| 0 <= k < old_rel.len() && old_rel[k] == j as usize;
                        assert(released@[k] == j as usize);
                    }
                    if released@.contains(j as usize) {
                        let k = choose|k: int| 0 <= k < released@.len() && released@[k] == j as usize;
                        if k < old_rel.len() {
                            assert(old_rel[k] == j as usize);
                        } else {
                            assert(released@[k] == i);
                        }
                    }
                } else {
                    if before[j].state == VoiceState::Active {
                        assert(released@[released@.len() - 1] == i);
                    }
                    if released@.contains(j as usize) {
                        let k = choose|k: int| 0 <= k < released@.len() && released@[k] == j as usize;
                        if k < old_rel.len() {
                            assert(old_rel[k] < i);
                        }
                    }
                }
            }
        }
    }
    proof {
        assert(voices_view(voices@) =~= before.map_values(|v: VoiceView| v.released()));
    }
    released
}

} // verus!

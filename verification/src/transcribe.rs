//! How a recording's tracks become one labelled transcript.
use vstd::prelude::*;

use crate::text::{
    common_count, words_over, decimal, lowercase, owned, push_decimal, push_str, same_text, views, word_list, word_set,
    Split,
};
use crate::tracks::Role;

verus! {

/// How a recording's tracks are turned into one labelled transcript.
#[derive(Debug, Clone, PartialEq)]
pub enum Plan {
    /// Separate microphone and voice-chat tracks. Attribution is exact.
    Split { mic: usize, voice: usize },
    /// A mixed track plus one speaker's own track: the microphone ("me") or,
    /// without one, voice chat ("others"). Everyone is audible in the mix,
    /// and the reference track says which of those lines were its speaker's.
    Derived { mixed: usize, reference: usize, speaker: &'static str },
    /// One usable track and no way to tell speakers apart.
    Single { track: usize, speaker: &'static str },
}

/// A plan with its speaker label as text.
pub enum PlanView {
    Split { mic: int, voice: int },
    Derived { mixed: int, reference: int, speaker: Seq<char> },
    Single { track: int, speaker: Seq<char> },
}

impl View for Plan {
    type V = PlanView;

    open spec fn view(&self) -> PlanView {
        match *self {
            Plan::Split { mic, voice } => PlanView::Split { mic: mic as int, voice: voice as int },
            Plan::Derived { mixed, reference, speaker } => PlanView::Derived {
                mixed: mixed as int,
                reference: reference as int,
                speaker: speaker@,
            },
            Plan::Single { track, speaker } => PlanView::Single { track: track as int, speaker: speaker@ },
        }
    }
}

/// Why no plan could be made.
#[derive(Debug, Clone, Copy, PartialEq, Eq, Structural)]
pub enum PlanError {
    /// No track has a role that can be transcribed.
    NoTrack,
}

impl PlanError {
    pub fn message(&self) -> (s: &'static str)
        ensures
            s@ == "no transcribable audio track; check the track roles"@,
    {
        "no transcribable audio track; check the track roles"
    }
}

pub open spec fn is_first(roles: Seq<Role>, r: Role, i: int) -> bool {
    0 <= i < roles.len() && roles[i] == r && forall|j: int| 0 <= j < i ==> roles[j] != r
}

/// The first track with role `r`, if any.
pub open spec fn first(roles: Seq<Role>, r: Role) -> Option<int> {
    if exists|i: int| 0 <= i < roles.len() && roles[i] == r {
        Some(choose|i: int| is_first(roles, r, i))
    } else {
        None
    }
}

/// The plan for a recording whose tracks have `roles`.
pub open spec fn spec_plan(roles: Seq<Role>) -> Option<PlanView> {
    let mic = first(roles, Role::Mic);
    let voice = first(roles, Role::Voice);
    let mixed = first(roles, Role::Mixed);
    match (mic, voice, mixed) {
        (Some(m), Some(v), _) => Some(PlanView::Split { mic: m, voice: v }),
        (Some(m), None, Some(x)) => Some(PlanView::Derived { mixed: x, reference: m, speaker: "me"@ }),
        (None, Some(v), Some(x)) => Some(PlanView::Derived { mixed: x, reference: v, speaker: "others"@ }),
        (_, _, Some(x)) => Some(PlanView::Single { track: x, speaker: "all"@ }),
        (Some(m), None, None) => Some(PlanView::Single { track: m, speaker: "me"@ }),
        (None, Some(v), None) => Some(PlanView::Single { track: v, speaker: "others"@ }),
        _ => match first(roles, Role::Unknown) {
            Some(u) => Some(PlanView::Single { track: u, speaker: "all"@ }),
            None => None,
        },
    }
}

fn position(roles: &[Role], want: Role) -> (r: Option<usize>)
    ensures
        r matches Some(i) ==> first(roles@, want) == Some(i as int),
        r is None ==> first(roles@, want) is None,
{
    let mut i: usize = 0;
    while i < roles.len()
        invariant
            i <= roles@.len(),
            forall|j: int| 0 <= j < i ==> roles@[j] != want,
        decreases roles@.len() - i,
    {
        if roles[i] == want {
            proof {
                assert(is_first(roles@, want, i as int));
                let c = choose|c: int| is_first(roles@, want, c);
                assert(c == i as int) by {
                    if c < i as int {
                    } else if c > i as int {
                    }
                }
            }
            return Some(i);
        }
        i = i + 1;
    }
    None
}

/// Chooses which tracks to transcribe and how to label their lines.
pub fn plan(roles: &[Role]) -> (r: Result<Plan, PlanError>)
    ensures
        r matches Ok(p) ==> spec_plan(roles@) == Some(p@),
        r is Err ==> spec_plan(roles@) is None,
{
    let mic = position(roles, Role::Mic);
    let voice = position(roles, Role::Voice);
    let mixed = position(roles, Role::Mixed);
    match (mic, voice, mixed) {
        (Some(mic), Some(voice), _) => Ok(Plan::Split { mic, voice }),
        (Some(mic), None, Some(mixed)) => Ok(Plan::Derived { mixed, reference: mic, speaker: "me" }),
        (None, Some(voice), Some(mixed)) => Ok(Plan::Derived { mixed, reference: voice, speaker: "others" }),
        (_, _, Some(mixed)) => Ok(Plan::Single { track: mixed, speaker: "all" }),
        (Some(mic), None, None) => Ok(Plan::Single { track: mic, speaker: "me" }),
        (None, Some(voice), None) => Ok(Plan::Single { track: voice, speaker: "others" }),
        _ => match position(roles, Role::Unknown) {
            Some(track) => Ok(Plan::Single { track, speaker: "all" }),
            None => Err(PlanError::NoTrack),
        },
    }
}

/// The distinct words of a transcript line: lowercased alphanumeric runs.
pub open spec fn line_words(text: Seq<char>) -> Set<Seq<char>> {
    word_set(Split::Alphanumeric, lowercase(text), 0)
}

/// The wording test for "the same line heard on two tracks": more than 60%
/// of the words of the shorter line occur in the other.
pub open spec fn same_words(a: Seq<char>, b: Seq<char>) -> bool {
    let x = line_words(a);
    let y = line_words(b);
    let smaller = if x.len() <= y.len() {
        x.len()
    } else {
        y.len()
    };
    smaller > 0 && 5 * x.intersect(y).len() > 3 * smaller
}

proof fn lemma_nonempty_words(a: Seq<char>, w: Seq<char>)
    requires
        line_words(a).contains(w),
    ensures
        line_words(a).len() > 0,
{
    let x = line_words(a);
    vstd::seq_lib::seq_to_set_is_finite(words_over(Split::Alphanumeric, lowercase(a), 0));
    assert(x.remove(w).len() + 1 == x.len());
}

/// A line whose words all occur in another line carries the same words as
/// it, in either argument order, however many more words the other has:
/// the test measures against the shorter line.
pub proof fn law_contained_line_same_words(a: Seq<char>, b: Seq<char>, w: Seq<char>)
    requires
        line_words(a).contains(w),
        line_words(a).subset_of(line_words(b)),
    ensures
        same_words(a, b),
        same_words(b, a),
{
    lemma_nonempty_words(a, w);
    lemma_nonempty_words(b, w);
    let x = line_words(a);
    let y = line_words(b);
    assert(x.intersect(y) == x);
    assert(y.intersect(x) == x);
}

/// The wording test does not depend on which line comes first, and lines
/// that share no word never match.
pub proof fn law_same_words_symmetric(a: Seq<char>, b: Seq<char>)
    ensures
        same_words(a, b) == same_words(b, a),
        line_words(a).disjoint(line_words(b)) ==> !same_words(a, b),
{
    let x = line_words(a);
    let y = line_words(b);
    assert(x.intersect(y) == y.intersect(x));
    if x.disjoint(y) {
        assert(x.intersect(y) == Set::<Seq<char>>::empty());
    }
}

/// Whether a line from the mixed track, and one from the reference track
/// that started within three seconds of it, carry the same words. Deliberately
/// loose: the two tracks are transcribed independently, so the same speech
/// comes back with different wording.
pub fn same_wording(a: &str, b: &str) -> (r: bool)
    ensures
        r == same_words(a@, b@),
{
    let x = word_list(Split::Alphanumeric, a, 0);
    let y = word_list(Split::Alphanumeric, b, 0);
    let smaller = if x.len() <= y.len() { x.len() } else { y.len() };
    if smaller == 0 {
        return false;
    }
    let shared = common_count(&x, &y);
    (shared as u128) * 5 > (smaller as u128) * 3
}

/// The other side of a two-way recording: "others" for "me", else "me".
pub open spec fn other_side(speaker: Seq<char>) -> Seq<char> {
    if speaker == "me"@ {
        "others"@
    } else {
        "me"@
    }
}

/// The speaker of a line from the mixed track, given the lines of the
/// reference track (whose speaker is `speaker`) that started within three
/// seconds of it: `speaker` when one of them carries the same words, the
/// other side otherwise. With the microphone as reference that is "me",
/// whoever made the recording, or "others"; with voice chat, the reverse.
pub fn speaker_against(line: &str, nearby: &Vec<String>, speaker: &'static str) -> (s: &'static str)
    ensures
        s@ == (if exists|j: int| 0 <= j < nearby@.len() && same_words(line@, #[trigger] nearby@[j]@) {
            speaker@
        } else {
            other_side(speaker@)
        }),
{
    let mut j: usize = 0;
    while j < nearby.len()
        invariant
            j <= nearby@.len(),
            forall|k: int| 0 <= k < j ==> !same_words(line@, #[trigger] nearby@[k]@),
        decreases nearby@.len() - j,
    {
        if same_wording(line, nearby[j].as_str()) {
            return speaker;
        }
        j = j + 1;
    }
    if same_text(speaker, "me") {
        "others"
    } else {
        "me"
    }
}

/// The passes of a plan: which track whisper hears, and whose lines it
/// labels them, in order.
pub open spec fn spec_passes(p: PlanView) -> Seq<(int, Seq<char>)> {
    match p {
        PlanView::Split { mic, voice } => seq![(mic, "me"@), (voice, "others"@)],
        PlanView::Derived { mixed, reference, speaker } => seq![(mixed, "all"@), (reference, speaker)],
        PlanView::Single { track, speaker } => seq![(track, speaker)],
    }
}

/// The tracks to transcribe for a plan, each with the speaker its lines
/// start out labelled as. In a derived plan the mixed track's lines are
/// then relabelled against the reference track's.
pub fn passes(p: &Plan) -> (r: Vec<(usize, &'static str)>)
    ensures
        r@.len() == spec_passes(p@).len(),
        forall|i: int|
            0 <= i < r@.len() ==> r@[i].0 as int == spec_passes(p@)[i].0 && r@[i].1@ == spec_passes(
                p@,
            )[i].1,
{
    match p {
        Plan::Split { mic, voice } => vec![(*mic, "me"), (*voice, "others")],
        Plan::Derived { mixed, reference, speaker } => vec![(*mixed, "all"), (*reference, *speaker)],
        Plan::Single { track, speaker } => vec![(*track, *speaker)],
    }
}

/// The scratch file name for track `track` of recording `id`: `<id>.t<n>`.
pub fn sample_name(id: &str, track: usize) -> (r: String)
    ensures
        r@ == id@ + ".t"@ + decimal(track as nat),
{
    let mut r = owned(id);
    push_str(&mut r, ".t");
    push_decimal(&mut r, track as u64);
    r
}

} // verus!

//! What each audio track of a recording carries, and which recordings share a
//! track arrangement.
use vstd::prelude::*;

use crate::model::{Recording, Track};
use crate::text::{
    common_count, contains_str, lemma_lex_order, lex_less, lex_lt, decimal, decimal_string, has_sub, join, joined, lowercase, push_str,
    same_text, starts_with, to_lowercase, trim, trimmed, views, word_list, word_set, Split,
};

verus! {

broadcast use vstd::seq_lib::group_seq_properties;

#[derive(Debug, Clone, Copy, PartialEq, Eq, Structural)]
pub enum Role {
    /// Every source mixed together. Usable, but the worst input for the LLM
    /// because nothing can be attributed.
    Mixed,
    /// Game and system audio. Never transcribed: it yields announcer lines and
    /// hallucination loops, and mixing it in makes the other tracks worse.
    Game,
    /// The person who made the recording.
    Mic,
    /// Everyone else, e.g. a Discord call.
    Voice,
    /// Present in the file, deliberately skipped.
    Ignore,
    /// Detection could not tell. The user must choose.
    Unknown,
}

impl Role {
    pub open spec fn is_transcribed(self) -> bool {
        self == Role::Mixed || self == Role::Mic || self == Role::Voice || self == Role::Unknown
    }

    pub open spec fn speaker_label(self) -> Seq<char> {
        match self {
            Role::Mic => "me"@,
            Role::Voice => "others"@,
            _ => "all"@,
        }
    }

    /// Whether a track with this role is sent to speech recognition.
    pub fn transcribed(self) -> (b: bool)
        ensures
            b == self.is_transcribed(),
    {
        match self {
            Role::Mixed | Role::Mic | Role::Voice | Role::Unknown => true,
            _ => false,
        }
    }

    /// Speaker label attached to every line from a track with this role.
    pub fn speaker(self) -> (s: &'static str)
        ensures
            s@ == self.speaker_label(),
    {
        match self {
            Role::Mic => "me",
            Role::Voice => "others",
            _ => "all",
        }
    }
}

/// The role a track's (lowercased) name announces, if any. The first list
/// that matches wins.
pub open spec fn named_role(n: Seq<char>) -> Option<Role> {
    if has_sub(n, "mic"@) || has_sub(n, "microphone"@) || has_sub(n, "aux"@) {
        Some(Role::Mic)
    } else if has_sub(n, "discord"@) || has_sub(n, "voice"@) || has_sub(n, "chat"@) || has_sub(
        n,
        "comms"@,
    ) || has_sub(n, "party"@) || has_sub(n, "teamspeak"@) {
        Some(Role::Voice)
    } else if has_sub(n, "system"@) || has_sub(n, "desktop"@) || has_sub(n, "game"@) || has_sub(
        n,
        "application"@,
    ) || has_sub(n, "media"@) || has_sub(n, "main"@) {
        Some(Role::Game)
    } else if has_sub(n, "mix"@) || has_sub(n, "all"@) || has_sub(n, "master"@) || has_sub(
        n,
        "everything"@,
    ) {
        Some(Role::Mixed)
    } else {
        None
    }
}

/// OBS lets you name tracks, and when someone has, the name is far more
/// reliable than anything inferred from the audio.
pub fn role_from_name(name: &str) -> (r: Option<Role>)
    ensures
        r == named_role(lowercase(name@)),
{
    let n = to_lowercase(name);
    let n = n.as_str();
    if contains_str(n, "mic") || contains_str(n, "microphone") || contains_str(n, "aux") {
        Some(Role::Mic)
    } else if contains_str(n, "discord") || contains_str(n, "voice") || contains_str(n, "chat")
        || contains_str(n, "comms") || contains_str(n, "party") || contains_str(n, "teamspeak") {
        Some(Role::Voice)
    } else if contains_str(n, "system") || contains_str(n, "desktop") || contains_str(n, "game")
        || contains_str(n, "application") || contains_str(n, "media") || contains_str(n, "main") {
        Some(Role::Game)
    } else if contains_str(n, "mix") || contains_str(n, "all") || contains_str(n, "master")
        || contains_str(n, "everything") {
        Some(Role::Mixed)
    } else {
        None
    }
}

/// The distinct words of a probe transcript that count for containment:
/// lowercased, alphanumeric runs, longer than three bytes.
pub open spec fn probe_words(text: Seq<char>) -> Set<Seq<char>> {
    word_set(Split::Alphanumeric, lowercase(text), 3)
}

/// More than 60% of the words of `part` also occur in `whole`, and `part`
/// has words at all.
pub open spec fn covers(whole: Seq<char>, part: Seq<char>) -> bool {
    let p = probe_words(part);
    let w = probe_words(whole);
    p.len() > 0 && 5 * p.intersect(w).len() > 3 * p.len()
}

/// True when `whole` appears to contain everything in `part`, which is how a
/// mixed track is told apart from the individual sources feeding it.
pub fn contains(whole: &str, part: &str) -> (b: bool)
    ensures
        b == covers(whole@, part@),
{
    let w = word_list(Split::Alphanumeric, whole, 3);
    let p = word_list(Split::Alphanumeric, part, 3);
    if p.len() == 0 {
        return false;
    }
    let shared = common_count(&p, &w);
    (shared as u128) * 5 > (p.len() as u128) * 3
}

/// A track name as the signature uses it: trimmed, then lowercased.
pub open spec fn name_key(name: Seq<char>) -> Seq<char> {
    lowercase(trimmed(name))
}

/// A name that says nothing about the routing: empty, or OBS's default
/// "Track N" / "Stream N".
pub open spec fn is_generic(k: Seq<char>) -> bool {
    "track"@.is_prefix_of(k) || "stream"@.is_prefix_of(k) || k.len() == 0
}

pub open spec fn track_keys(tracks: Seq<Track>) -> Seq<Seq<char>> {
    tracks.map_values(|t: Track| name_key(t.name@))
}

/// Track names when OBS supplies them, otherwise just the count.
pub open spec fn spec_signature(tracks: Seq<Track>) -> Seq<char> {
    let keys = track_keys(tracks);
    if forall|i: int| 0 <= i < keys.len() ==> is_generic(#[trigger] keys[i]) {
        decimal(tracks.len()) + "tracks"@
    } else {
        joined(keys, "|"@)
    }
}

/// Track names when OBS supplies them, otherwise just the count. Recordings
/// with the same signature are assumed to share a routing setup.
pub fn signature(rec: &Recording) -> (s: String)
    ensures
        s@ == spec_signature(rec.tracks@),
{
    let mut names: Vec<String> = Vec::new();
    let mut generic = true;
    let mut i: usize = 0;
    while i < rec.tracks.len()
        invariant
            i <= rec.tracks@.len(),
            views(names@) == track_keys(rec.tracks@).take(i as int),
            generic == (forall|j: int| 0 <= j < i ==> is_generic(#[trigger] track_keys(rec.tracks@)[j])),
        decreases rec.tracks@.len() - i,
    {
        let t = trim(rec.tracks[i].name.as_str());
        let k = to_lowercase(t.as_str());
        let ghost before = names@;
        let g = starts_with(k.as_str(), "track") || starts_with(k.as_str(), "stream") || k.as_str().is_empty();
        proof {
            assert(k@ == track_keys(rec.tracks@)[i as int]);
            assert(track_keys(rec.tracks@).take(i + 1) == track_keys(rec.tracks@).take(i as int).push(k@));
        }
        names.push(k);
        proof {
            assert(views(names@) == views(before).push(names@.last()@));
        }
        generic = generic && g;
        i = i + 1;
    }
    assert(track_keys(rec.tracks@).take(rec.tracks@.len() as int) == track_keys(rec.tracks@));
    if generic {
        let mut s = decimal_string(rec.tracks.len() as u64);
        push_str(&mut s, "tracks");
        s
    } else {
        join(&names, "|")
    }
}


/// The map that a list of (signature, roles) entries stands for; a later
/// entry for the same key would win, though `Settings` never holds two.
pub open spec fn roles_map(v: Seq<(String, Vec<Role>)>) -> Map<Seq<char>, Seq<Role>>
    decreases v.len(),
{
    if v.len() == 0 {
        Map::empty()
    } else {
        roles_map(v.drop_last()).insert(v.last().0@, v.last().1@)
    }
}

pub open spec fn unique_keys(v: Seq<(String, Vec<Role>)>) -> bool {
    forall|i: int, j: int| 0 <= i < j < v.len() ==> v[i].0@ != v[j].0@
}

proof fn lemma_roles_map_lookup(v: Seq<(String, Vec<Role>)>, k: Seq<char>)
    requires
        unique_keys(v),
    ensures
        roles_map(v).dom().contains(k) <==> exists|i: int| 0 <= i < v.len() && v[i].0@ == k,
        forall|i: int| 0 <= i < v.len() && v[i].0@ == k ==> roles_map(v)[k] == v[i].1@,
    decreases v.len(),
{
    if v.len() > 0 {
        let rest = v.drop_last();
        let n = v.len() - 1;
        assert(unique_keys(rest));
        lemma_roles_map_lookup(rest, k);
        if v[n].0@ != k {
            assert(roles_map(v).dom().contains(k) == roles_map(rest).dom().contains(k));
            if exists|i: int| 0 <= i < v.len() && v[i].0@ == k {
                let i = choose|i: int| 0 <= i < v.len() && v[i].0@ == k;
                assert(i < n);
                assert(rest[i] == v[i]);
            }
            if exists|i: int| 0 <= i < rest.len() && rest[i].0@ == k {
                let i = choose|i: int| 0 <= i < rest.len() && rest[i].0@ == k;
                assert(v[i] == rest[i]);
            }
            assert forall|i: int| 0 <= i < v.len() && v[i].0@ == k implies roles_map(v)[k] == v[i].1@ by {
                assert(i < n);
                assert(rest[i] == v[i]);
            }
        } else {
            assert(roles_map(v).dom().contains(k));
            assert(roles_map(v)[k] == v[n].1@);
            assert forall|i: int| 0 <= i < v.len() && v[i].0@ == k implies roles_map(v)[k] == v[i].1@ by {
                if i < n {
                    assert(v[i].0@ != v[n].0@);
                }
            }
        }
    } else {
        assert(!roles_map(v).dom().contains(k));
    }
}

proof fn lemma_roles_map_update(v: Seq<(String, Vec<Role>)>, i: int, e: (String, Vec<Role>))
    requires
        unique_keys(v),
        0 <= i < v.len(),
        e.0@ == v[i].0@,
    ensures
        roles_map(v.update(i, e)) == roles_map(v).insert(e.0@, e.1@),
        unique_keys(v.update(i, e)),
    decreases v.len(),
{
    let w = v.update(i, e);
    if i == v.len() - 1 {
        assert(w.drop_last() == v.drop_last());
        assert(roles_map(w) == roles_map(v).insert(e.0@, e.1@));
    } else {
        let rest = v.drop_last();
        assert(w.drop_last() == rest.update(i, e));
        lemma_roles_map_update(rest, i, e);
        assert(v.last().0@ != e.0@);
        assert(roles_map(w) == roles_map(v).insert(e.0@, e.1@));
    }
}

/// Per-project settings: what the footage is, names to expect, and the roles
/// chosen for each track layout.
#[derive(Debug)]
pub struct Settings {
    subject: String,
    notes: String,
    /// Roles per layout signature, so one folder can hold recordings made
    /// with different OBS setups. No signature appears twice.
    roles: Vec<(String, Vec<Role>)>,
}

impl Settings {
    #[verifier::type_invariant]
    spec fn keys_unique(self) -> bool {
        unique_keys(self.roles@)
    }

    /// Roles per layout signature.
    pub closed spec fn roles_view(self) -> Map<Seq<char>, Seq<Role>> {
        roles_map(self.roles@)
    }

    /// What the footage is, e.g. "a match of Deadlock".
    pub closed spec fn subject_view(self) -> Seq<char> {
        self.subject@
    }

    /// Names and jargon to expect.
    pub closed spec fn notes_view(self) -> Seq<char> {
        self.notes@
    }

    pub fn subject(&self) -> (r: &String)
        ensures
            r@ == self.subject_view(),
    {
        &self.subject
    }

    pub fn notes(&self) -> (r: &String)
        ensures
            r@ == self.notes_view(),
    {
        &self.notes
    }

    /// Settings with no roles chosen yet.
    pub fn new(subject: String, notes: String) -> (s: Settings)
        ensures
            s.subject_view() == subject@,
            s.notes_view() == notes@,
            s.roles_view() == Map::<Seq<char>, Seq<Role>>::empty(),
    {
        Settings { subject, notes, roles: Vec::new() }
    }

    /// Whether any layout has roles yet.
    pub fn has_roles(&self) -> (b: bool)
        ensures
            b == (self.roles_view().dom().len() > 0),
    {
        proof {
            use_type_invariant(self);
            assert(self.roles_view().dom().finite()) by {
                lemma_roles_map_finite(self.roles@);
            }
            if self.roles@.len() > 0 {
                lemma_roles_map_lookup(self.roles@, self.roles@[0].0@);
                assert(self.roles_view().dom().contains(self.roles@[0].0@));
            } else {
                assert(self.roles_view().dom() == Set::<Seq<char>>::empty());
            }
        }
        self.roles.len() > 0
    }

    fn position(&self, sig: &str) -> (r: Option<usize>)
        ensures
            r matches Some(i) ==> i < self.roles@.len() && self.roles@[i as int].0@ == sig@,
            r is None ==> forall|i: int| 0 <= i < self.roles@.len() ==> self.roles@[i].0@ != sig@,
    {
        let mut i: usize = 0;
        while i < self.roles.len()
            invariant
                i <= self.roles@.len(),
                forall|j: int| 0 <= j < i ==> self.roles@[j].0@ != sig@,
            decreases self.roles@.len() - i,
        {
            if same_text(self.roles[i].0.as_str(), sig) {
                return Some(i);
            }
            i = i + 1;
        }
        None
    }

    /// The roles saved for a layout signature, if any.
    pub fn roles_of(&self, sig: &str) -> (r: Option<&Vec<Role>>)
        ensures
            r is None <==> !self.roles_view().dom().contains(sig@),
            r matches Some(v) ==> v@ == self.roles_view()[sig@],
    {
        proof {
            use_type_invariant(self);
            lemma_roles_map_lookup(self.roles@, sig@);
        }
        match self.position(sig) {
            Some(i) => Some(&self.roles[i].1),
            None => None,
        }
    }

    /// The roles chosen for this recording's track layout.
    pub fn roles_for(&self, rec: &Recording) -> (r: Option<&Vec<Role>>)
        ensures
            r is None <==> !self.roles_view().dom().contains(spec_signature(rec.tracks@)),
            r matches Some(v) ==> v@ == self.roles_view()[spec_signature(rec.tracks@)],
    {
        let sig = signature(rec);
        self.roles_of(sig.as_str())
    }

    /// Saves roles for a layout, replacing any saved before.
    pub fn insert_roles(&mut self, sig: String, roles: Vec<Role>)
        ensures
            final(self).roles_view() == old(self).roles_view().insert(sig@, roles@),
            final(self).subject_view() == old(self).subject_view(),
            final(self).notes_view() == old(self).notes_view(),
    {
        proof {
            use_type_invariant(&*self);
        }
        let ghost k = sig@;
        let ghost val = roles@;
        match self.position(sig.as_str()) {
            Some(i) => {
                let ghost e = (sig, roles);
                proof {
                    lemma_roles_map_update(self.roles@, i as int, e);
                }
                let mut entries: Vec<(String, Vec<Role>)> = Vec::new();
                std::mem::swap(&mut entries, &mut self.roles);
                entries.set(i, (sig, roles));
                self.roles = entries;
            },
            None => {
                let mut entries: Vec<(String, Vec<Role>)> = Vec::new();
                std::mem::swap(&mut entries, &mut self.roles);
                let ghost before = entries@;
                entries.push((sig, roles));
                proof {
                    assert(entries@.drop_last() == before);
                }
                self.roles = entries;
            },
        }
    }

    /// Saves roles for a layout only when none are saved yet, so roles the
    /// user has confirmed are never replaced.
    pub fn offer_roles(&mut self, sig: String, roles: Vec<Role>)
        ensures
            old(self).roles_view().dom().contains(sig@) ==> final(self).roles_view() == old(self).roles_view(),
            !old(self).roles_view().dom().contains(sig@) ==> final(self).roles_view() == old(self).roles_view().insert(sig@, roles@),
            final(self).subject_view() == old(self).subject_view(),
            final(self).notes_view() == old(self).notes_view(),
    {
        if self.roles_of(sig.as_str()).is_none() {
            self.insert_roles(sig, roles);
        }
    }

    /// Every (signature, roles) entry, in no particular order.
    pub fn entries(&self) -> (r: &Vec<(String, Vec<Role>)>)
        ensures
            roles_map(r@) == self.roles_view(),
            unique_keys(r@),
    {
        proof {
            use_type_invariant(self);
        }
        &self.roles
    }
}

proof fn lemma_roles_map_finite(v: Seq<(String, Vec<Role>)>)
    ensures
        roles_map(v).dom().finite(),
    decreases v.len(),
{
    if v.len() > 0 {
        lemma_roles_map_finite(v.drop_last());
    }
}

/// Reading the roles of a layout gives back what was last saved for it.
pub proof fn law_roles_read_back(s: Settings, t: Settings, sig: Seq<char>, roles: Seq<Role>)
    requires
        t.roles_view() == s.roles_view().insert(sig, roles),
    ensures
        t.roles_view().dom().contains(sig),
        t.roles_view()[sig] == roles,
{
}

/// Saving roles for one layout leaves every other layout's roles as they were.
pub proof fn law_roles_other_layouts(s: Settings, t: Settings, sig: Seq<char>, roles: Seq<Role>, other: Seq<char>)
    requires
        t.roles_view() == s.roles_view().insert(sig, roles),
        other != sig,
    ensures
        t.roles_view().dom().contains(other) == s.roles_view().dom().contains(other),
        s.roles_view().dom().contains(other) ==> t.roles_view()[other] == s.roles_view()[other],
{
}


/// What sampling one track of a layout found.
#[derive(Debug)]
pub struct TrackProbe {
    pub index: usize,
    pub name: String,
    /// Whether the sampled speech rate reached the speech threshold of 12
    /// words a minute. Game audio scores 0 on every recording tested; real
    /// conversation scores in the tens or hundreds.
    pub speaks: bool,
    /// A little of what was heard, so the user can identify the track by eye.
    pub sample: String,
    pub role: Role,
    /// False when the user needs to confirm, e.g. mic versus voice chat.
    pub confident: bool,
    /// Full probe text. Containment needs all of it; `sample` is truncated
    /// for display.
    pub full: String,
}

/// A probe as the role logic sees it.
pub struct ProbeView {
    pub index: usize,
    pub name: Seq<char>,
    pub speaks: bool,
    pub sample: Seq<char>,
    pub role: Role,
    pub confident: bool,
    pub full: Seq<char>,
}

impl View for TrackProbe {
    type V = ProbeView;

    open spec fn view(&self) -> ProbeView {
        ProbeView {
            index: self.index,
            name: self.name@,
            speaks: self.speaks,
            sample: self.sample@,
            role: self.role,
            confident: self.confident,
            full: self.full@,
        }
    }
}

pub open spec fn probe_views(v: Seq<TrackProbe>) -> Seq<ProbeView> {
    v.map_values(|p: TrackProbe| p@)
}

pub open spec fn with_role(p: ProbeView, r: Role, c: bool) -> ProbeView {
    ProbeView { role: r, confident: c, ..p }
}

/// Roles a track's name announces are taken as settled.
pub open spec fn by_names(o: Seq<ProbeView>) -> Seq<ProbeView> {
    Seq::new(
        o.len(),
        |i: int|
            match named_role(lowercase(o[i].name)) {
                Some(r) => with_role(o[i], r, true),
                None => o[i],
            },
    )
}

pub open spec fn all_confident(q: Seq<ProbeView>) -> bool {
    forall|i: int| 0 <= i < q.len() ==> #[trigger] q[i].confident
}

/// An unsettled track with too little speech is game audio.
pub open spec fn by_silence(q: Seq<ProbeView>) -> Seq<ProbeView> {
    Seq::new(
        q.len(),
        |i: int|
            if !q[i].confident && !q[i].speaks {
                with_role(q[i], Role::Game, true)
            } else {
                q[i]
            },
    )
}

/// A track that carries speech and may be transcribed.
pub open spec fn in_speech(p: ProbeView) -> bool {
    (!p.confident || p.role.is_transcribed()) && p.speaks
}

pub open spec fn speech_count(q: Seq<ProbeView>) -> nat
    decreases q.len(),
{
    if q.len() == 0 {
        0
    } else {
        speech_count(q.drop_last()) + if in_speech(q.last()) {
            1nat
        } else {
            0nat
        }
    }
}

/// An unsettled speech track whose words contain every other speech
/// track's: the mix of the others.
pub open spec fn swallows(q: Seq<ProbeView>, i: int) -> bool {
    &&& 0 <= i < q.len()
    &&& in_speech(q[i])
    &&& !q[i].confident
    &&& forall|j: int|
        0 <= j < q.len() && j != i && in_speech(#[trigger] q[j]) ==> covers(q[i].full, q[j].full)
}

pub open spec fn first_swallower(q: Seq<ProbeView>, i: int) -> bool {
    swallows(q, i) && forall|j: int| 0 <= j < i ==> !swallows(q, j)
}

/// The track taken to be the mix, when there are several speech tracks.
pub open spec fn mix_pick(q: Seq<ProbeView>) -> Option<int> {
    if speech_count(q) > 1 && exists|i: int| swallows(q, i) {
        Some(choose|i: int| first_swallower(q, i))
    } else {
        None
    }
}

/// The picked mix is settled; every other unsettled track carries voices
/// nobody can attribute from audio (unknown), or nothing (ignore).
pub open spec fn settle(q: Seq<ProbeView>, pick: Option<int>) -> Seq<ProbeView> {
    Seq::new(
        q.len(),
        |i: int|
            if pick == Some(i) {
                with_role(q[i], Role::Mixed, true)
            } else if !q[i].confident {
                with_role(
                    q[i],
                    if q[i].speaks {
                        Role::Unknown
                    } else {
                        Role::Ignore
                    },
                    false,
                )
            } else {
                q[i]
            },
    )
}

pub open spec fn first_unknown(s: Seq<ProbeView>, u: int) -> bool {
    0 <= u < s.len() && s[u].role == Role::Unknown && forall|j: int|
        0 <= j < u ==> s[j].role != Role::Unknown
}

/// With a single speech track, the first undecided track is the mix.
pub open spec fn lone_speech(q: Seq<ProbeView>, s: Seq<ProbeView>) -> Seq<ProbeView> {
    if speech_count(q) == 1 && exists|u: int|
        0 <= u < s.len() && s[u].role == Role::Unknown {
        let u = choose|u: int| first_unknown(s, u);
        s.update(u, with_role(s[u], Role::Mixed, true))
    } else {
        s
    }
}

/// The roles `assign` settles on for probes `o`.
pub open spec fn assigned(o: Seq<ProbeView>) -> Seq<ProbeView> {
    let named = by_names(o);
    if all_confident(named) {
        named
    } else {
        let q = by_silence(named);
        lone_speech(q, settle(q, mix_pick(q)))
    }
}

proof fn lemma_speech_counts(q: Seq<ProbeView>, a: int, b: int)
    requires
        0 <= a < q.len(),
        in_speech(q[a]),
        0 <= b < q.len(),
        in_speech(q[b]),
    ensures
        speech_count(q) >= 1,
        a != b ==> speech_count(q) >= 2,
    decreases q.len(),
{
    let last = q.len() - 1;
    let rest = q.drop_last();
    if a == last && b == last {
        if q.len() > 0 {
        }
    } else if a == last {
        lemma_speech_counts(rest, b, b);
    } else if b == last {
        lemma_speech_counts(rest, a, a);
    } else {
        lemma_speech_counts(rest, a, b);
    }
}

/// The mix is found whenever several tracks carry speech: after names and
/// silence have settled what they can, if two or more tracks are in speech
/// and an unsettled speech track's words cover every other speech track's,
/// the first such track is the mix, and settled.
pub proof fn law_mix_found(o: Seq<ProbeView>, i: int, a: int, b: int)
    requires
        0 <= a < o.len(),
        0 <= b < o.len(),
        a != b,
        in_speech(by_silence(by_names(o))[a]),
        in_speech(by_silence(by_names(o))[b]),
        swallows(by_silence(by_names(o)), i),
        forall|j: int| 0 <= j < i ==> !swallows(by_silence(by_names(o)), j),
    ensures
        assigned(o).len() == o.len(),
        assigned(o)[i].role == Role::Mixed,
        assigned(o)[i].confident,
{
    let named = by_names(o);
    let q = by_silence(named);
    if all_confident(named) {
        assert(q[i].confident);
    }
    lemma_speech_counts(q, a, b);
    assert(first_swallower(q, i));
    let c = choose|c: int| first_swallower(q, c);
    assert(c == i) by {
        if c < i {
        } else if c > i {
        }
    }
    assert(mix_pick(q) == Some(i));
}

fn relabel(p: &TrackProbe, r: Role, c: bool) -> (q: TrackProbe)
    ensures
        q@ == with_role(p@, r, c),
{
    TrackProbe {
        index: p.index,
        name: p.name.clone(),
        speaks: p.speaks,
        sample: p.sample.clone(),
        role: r,
        confident: c,
        full: p.full.clone(),
    }
}

/// Fills in roles from names where possible, then from the audio.
pub fn assign(probes: &mut Vec<TrackProbe>)
    ensures
        probe_views(final(probes)@) == assigned(probe_views(old(probes)@)),
{
    let ghost o = probe_views(probes@);
    let n = probes.len();

    // Names first.
    let ghost named = by_names(o);
    let mut i: usize = 0;
    while i < n
        invariant
            n == o.len(),
            probes@.len() == n,
            named == by_names(o),
            o == probe_views(old(probes)@),
            i <= n,
            forall|j: int| 0 <= j < i ==> probes@[j]@ == named[j],
            forall|j: int| i <= j < n ==> probes@[j]@ == o[j],
        decreases n - i,
    {
        proof {
            assert(probes@[i as int]@ == o[i as int]);
        }
        match role_from_name(probes[i].name.as_str()) {
            Some(r) => {
                let q = relabel(&probes[i], r, true);
                probes.set(i, q);
            },
            None => {},
        }
        i = i + 1;
    }
    assert(probe_views(probes@) == named);

    let mut settled = true;
    let mut i: usize = 0;
    while i < n
        invariant
            probes@.len() == n,
            i <= n,
            probe_views(probes@) == named,
            settled == (forall|j: int| 0 <= j < i ==> #[trigger] named[j].confident),
        decreases n - i,
    {
        proof {
            assert(probe_views(probes@)[i as int] == probes@[i as int]@);
        }
        assert(named[i as int].confident == probes@[i as int].confident);
        settled = settled && probes[i].confident;
        i = i + 1;
    }
    if !settled {
        settle_by_audio(probes);
    }
}

/// The indices of the speech tracks among `q`, in increasing order.
pub open spec fn speech_list(q: Seq<ProbeView>, speech: Seq<usize>) -> bool {
    &&& speech.len() == speech_count(q)
    &&& forall|k: int| 0 <= k < speech.len() ==> #[trigger] speech[k] < q.len()
    &&& forall|k: int| 0 <= k < speech.len() ==> in_speech(q[#[trigger] speech[k] as int])
    &&& forall|k1: int, k2: int| 0 <= k1 < k2 < speech.len() ==> speech[k1] < speech[k2]
    &&& forall|j: int| 0 <= j < q.len() && in_speech(q[j]) ==> speech.contains(j as usize)
}

/// The steps of `assign` that run when names leave some track unsettled.
fn settle_by_audio(probes: &mut Vec<TrackProbe>)
    requires
        !all_confident(probe_views(old(probes)@)),
    ensures
        probe_views(final(probes)@) == {
            let q = by_silence(probe_views(old(probes)@));
            lone_speech(q, settle(q, mix_pick(q)))
        },
{
    silence_pass(probes);
    let speech = speech_tracks(probes);
    let found = find_mix(probes, &speech);
    settle_pass(probes, found);
    lone_pass(probes, speech.len() == 1);
}

/// Silence is game audio.
fn silence_pass(probes: &mut Vec<TrackProbe>)
    ensures
        probe_views(final(probes)@) == by_silence(probe_views(old(probes)@)),
{
    let ghost named = probe_views(probes@);
    let ghost q = by_silence(named);
    let n = probes.len();
    let mut i: usize = 0;
    while i < n
        invariant
            probes@.len() == n,
            named.len() == n,
            q == by_silence(named),
            i <= n,
            forall|j: int| 0 <= j < i ==> probes@[j]@ == q[j],
            forall|j: int| i <= j < n ==> probes@[j]@ == named[j],
        decreases n - i,
    {
        if !probes[i].confident && !probes[i].speaks {
            let p = relabel(&probes[i], Role::Game, true);
            probes.set(i, p);
        }
        i = i + 1;
    }
    assert(probe_views(probes@) == q);
}

/// The speech tracks, in order.
fn speech_tracks(probes: &Vec<TrackProbe>) -> (speech: Vec<usize>)
    ensures
        speech_list(probe_views(probes@), speech@),
{
    let ghost q = probe_views(probes@);
    let n = probes.len();
    let mut speech: Vec<usize> = Vec::new();
    let mut i: usize = 0;
    while i < n
        invariant
            n == q.len(),
            q == probe_views(probes@),
            i <= n,
            speech@.len() == speech_count(q.take(i as int)),
            forall|k: int| 0 <= k < speech@.len() ==> #[trigger] speech@[k] < i,
            forall|k: int| 0 <= k < speech@.len() ==> in_speech(q[#[trigger] speech@[k] as int]),
            forall|k1: int, k2: int| 0 <= k1 < k2 < speech@.len() ==> speech@[k1] < speech@[k2],
            forall|j: int| 0 <= j < i && in_speech(q[j]) ==> speech@.contains(j as usize),
        decreases n - i,
    {
        proof {
            assert(q.take(i + 1).drop_last() == q.take(i as int));
            assert(q[i as int] == probes@[i as int]@);
        }
        let p = &probes[i];
        if (!p.confident || p.role.transcribed()) && p.speaks {
            speech.push(i);
        }
        i = i + 1;
    }
    assert(q.take(n as int) == q);
    speech
}

/// The mix is the first speech track whose words contain all the others'.
fn find_mix(probes: &Vec<TrackProbe>, speech: &Vec<usize>) -> (found: Option<usize>)
    requires
        speech_list(probe_views(probes@), speech@),
    ensures
        found matches Some(f) ==> f < probes@.len() && mix_pick(probe_views(probes@)) == Some(f as int),
        found is None ==> mix_pick(probe_views(probes@)) is None,
{
    let ghost q = probe_views(probes@);
    let n = probes.len();
    let mut found: Option<usize> = None;
    if speech.len() > 1 {
        let mut k: usize = 0;
        while k < speech.len() && found.is_none()
            invariant
                q == probe_views(probes@),
                n == q.len(),
                speech_list(q, speech@),
                speech@.len() > 1,
                k <= speech@.len(),
                found matches Some(f) ==> first_swallower(q, f as int),
                found is None ==> forall|j: int| 0 <= j < n && swallows(q, j) ==> exists|m: int|
                    k <= m < speech@.len() && speech@[m] == j,
            decreases speech@.len() - k,
        {
            let i = speech[k];
            let mut all = true;
            let mut m: usize = 0;
            while m < speech.len()
                invariant
                    q == probe_views(probes@),
                    n == q.len(),
                    i < n,
                    m <= speech@.len(),
                    forall|x: int| 0 <= x < speech@.len() ==> #[trigger] speech@[x] < n,
                    all == (forall|x: int| 0 <= x < m && speech@[x] != i ==> covers(q[i as int].full, q[#[trigger] speech@[x] as int].full)),
                decreases speech@.len() - m,
            {
                let j = speech[m];
                if j != i {
                    proof {
                        assert(q[i as int] == probes@[i as int]@);
                        assert(q[j as int] == probes@[j as int]@);
                    }
                    let c = contains(probes[i].full.as_str(), probes[j].full.as_str());
                    all = all && c;
                }
                m = m + 1;
            }
            proof {
                assert(q[i as int] == probes@[i as int]@);
                assert(in_speech(q[i as int]));
                assert(all == (forall|j: int| 0 <= j < n && j != i && in_speech(#[trigger] q[j]) ==> covers(q[i as int].full, q[j].full))) by {
                    if all {
                        assert forall|j: int| 0 <= j < n && j != i && in_speech(#[trigger] q[j]) implies covers(q[i as int].full, q[j].full) by {
                            assert(speech@.contains(j as usize));
                            let x = choose|x: int| 0 <= x < speech@.len() && speech@[x] == j as usize;
                        }
                    } else {
                        let x = choose|x: int| 0 <= x < speech@.len() && speech@[x] != i && !covers(q[i as int].full, q[speech@[x] as int].full);
                        assert(in_speech(q[speech@[x] as int]));
                    }
                }
            }
            if all && !probes[i].confident {
                proof {
                    assert(swallows(q, i as int));
                    assert forall|j: int| 0 <= j < i implies !swallows(q, j) by {
                        if swallows(q, j) {
                            let m = choose|m: int| k <= m < speech@.len() && speech@[m] == j;
                            if m > k {
                                assert(speech@[k as int] < speech@[m]);
                            }
                        }
                    }
                }
                found = Some(i);
            } else {
                proof {
                    assert(!swallows(q, i as int));
                    assert forall|j: int| 0 <= j < n && swallows(q, j) implies exists|m: int| k + 1 <= m < speech@.len() && speech@[m] == j by {
                        let m = choose|m: int| k <= m < speech@.len() && speech@[m] == j;
                        assert(m != k);
                    }
                }
            }
            k = k + 1;
        }
        proof {
            if found is None {
                assert forall|j: int| !swallows(q, j) by {
                    if swallows(q, j) {
                        let m = choose|m: int| k <= m < speech@.len() && speech@[m] == j;
                    }
                }
            }
        }
    }
    proof {
        if let Some(f) = found {
            assert(swallows(q, f as int));
            let c = choose|c: int| first_swallower(q, c);
            assert(first_swallower(q, c));
            assert(c == f as int) by {
                if c < f as int {
                    assert(!swallows(q, c));
                } else if c > f as int {
                    assert(!swallows(q, f as int));
                }
            }
        }
    }
    found
}

pub open spec fn as_pick(found: Option<usize>) -> Option<int> {
    match found {
        Some(f) => Some(f as int),
        None => None,
    }
}

/// Settles the picked mix, and every other unsettled track by whether it
/// speaks.
fn settle_pass(probes: &mut Vec<TrackProbe>, found: Option<usize>)
    requires
        found matches Some(f) ==> f < old(probes)@.len(),
    ensures
        probe_views(final(probes)@) == settle(probe_views(old(probes)@), as_pick(found)),
{
    let ghost q = probe_views(probes@);
    let ghost pick = as_pick(found);
    let ghost st = settle(q, pick);
    let n = probes.len();
    let mut i: usize = 0;
    while i < n
        invariant
            probes@.len() == n,
            q.len() == n,
            st == settle(q, pick),
            pick == as_pick(found),
            i <= n,
            forall|j: int| 0 <= j < i ==> probes@[j]@ == st[j],
            forall|j: int| i <= j < n ==> probes@[j]@ == q[j],
        decreases n - i,
    {
        let is_pick = match found {
            Some(f) => f == i,
            None => false,
        };
        if is_pick {
            let p = relabel(&probes[i], Role::Mixed, true);
            probes.set(i, p);
        } else if !probes[i].confident {
            let r = if probes[i].speaks { Role::Unknown } else { Role::Ignore };
            let p = relabel(&probes[i], r, false);
            probes.set(i, p);
        }
        i = i + 1;
    }
    assert(probe_views(probes@) == st);
}

/// With a single speech track, the first undecided track is the mix.
fn lone_pass(probes: &mut Vec<TrackProbe>, single: bool)
    ensures
        single ==> probe_views(final(probes)@) == {
            let s = probe_views(old(probes)@);
            if exists|u: int| 0 <= u < s.len() && s[u].role == Role::Unknown {
                let u = choose|u: int| first_unknown(s, u);
                s.update(u, with_role(s[u], Role::Mixed, true))
            } else {
                s
            }
        },
        !single ==> final(probes)@ == old(probes)@,
{
    if !single {
        return;
    }
    let ghost st = probe_views(probes@);
    let n = probes.len();
    let mut u: usize = 0;
    while u < n && probes[u].role != Role::Unknown
        invariant
            n == st.len(),
            st == probe_views(probes@),
            u <= n,
            forall|j: int| 0 <= j < u ==> st[j].role != Role::Unknown,
        decreases n - u,
    {
        assert(st[u as int] == probes@[u as int]@);
        u = u + 1;
    }
    if u < n {
        proof {
            assert(st[u as int] == probes@[u as int]@);
            assert(first_unknown(st, u as int));
            let c = choose|c: int| first_unknown(st, c);
            assert(c == u as int) by {
                if c < u as int {
                } else if c > u as int {
                }
            }
        }
        let p = relabel(&probes[u], Role::Mixed, true);
        probes.set(u, p);
        assert(probe_views(probes@) == st.update(u as int, with_role(st[u as int], Role::Mixed, true)));
    } else {
        assert(forall|j: int| !(0 <= j < st.len() && st[j].role == Role::Unknown));
    }
}


/// Each recording's layout signature.
pub open spec fn signatures(recs: Seq<Recording>) -> Seq<Seq<char>> {
    recs.map_values(|r: Recording| spec_signature(r.tracks@))
}

/// How many recordings have layout `s`.
pub open spec fn layout_count(recs: Seq<Recording>, s: Seq<char>) -> nat {
    signatures(recs).filter(same_as(s)).len()
}

pub open spec fn same_as(s: Seq<char>) -> spec_fn(Seq<char>) -> bool {
    |x: Seq<char>| x == s
}

/// Recording `e` is the one probed for layout `s`: the longest with that
/// layout, the earliest of equally long ones.
pub open spec fn is_example(recs: Seq<Recording>, s: Seq<char>, e: int) -> bool {
    &&& 0 <= e < recs.len()
    &&& signatures(recs)[e] == s
    &&& forall|j: int|
        0 <= j < recs.len() && signatures(recs)[j] == s ==> {
            &&& recs[j].duration_order <= recs[e].duration_order
            &&& (recs[j].duration_order == recs[e].duration_order ==> e <= j)
        }
}

/// What `layouts` returns: one entry per distinct layout, in signature
/// order, with its example recording and how many recordings share it.
pub open spec fn layouts_of(recs: Seq<Recording>, r: Seq<(Seq<char>, usize, usize)>) -> bool {
    &&& forall|k: int, l: int| 0 <= k < l < r.len() ==> lex_lt(r[k].0, r[l].0)
    &&& forall|i: int| 0 <= i < recs.len() ==> listed(r, #[trigger] signatures(recs)[i])
    &&& forall|k: int| 0 <= k < r.len() ==> is_example(recs, r[k].0, #[trigger] r[k].1 as int)
    &&& forall|k: int| 0 <= k < r.len() ==> #[trigger] r[k].2 == layout_count(recs, r[k].0)
}

/// Some entry of `r` is for layout `s`.
pub open spec fn listed(r: Seq<(Seq<char>, usize, usize)>, s: Seq<char>) -> bool {
    exists|k: int| 0 <= k < r.len() && r[k].0 == s
}

pub open spec fn layout_views(r: Seq<(String, usize, usize)>) -> Seq<(Seq<char>, usize, usize)> {
    r.map_values(|e: (String, usize, usize)| (e.0@, e.1, e.2))
}

/// Inserts `s` into a list kept in strictly increasing order, unless present.
fn insert_sorted(keys: &mut Vec<String>, s: String)
    requires
        forall|k: int, l: int| 0 <= k < l < old(keys)@.len() ==> lex_lt(old(keys)@[k]@, old(keys)@[l]@),
    ensures
        forall|k: int, l: int| 0 <= k < l < final(keys)@.len() ==> lex_lt(final(keys)@[k]@, final(keys)@[l]@),
        views(final(keys)@).to_set() == views(old(keys)@).to_set().insert(s@),
{
    let ghost old_keys = keys@;
    let mut p: usize = 0;
    while p < keys.len() && lex_less(keys[p].as_str(), s.as_str())
        invariant
            keys@ == old_keys,
            p <= keys@.len(),
            forall|k: int| 0 <= k < p ==> lex_lt(keys@[k]@, s@),
        decreases keys@.len() - p,
    {
        p = p + 1;
    }
    if p < keys.len() && same_text(keys[p].as_str(), s.as_str()) {
        assert(views(keys@).contains(s@)) by {
            assert(views(keys@)[p as int] == s@);
        }
        assert(views(keys@).to_set().insert(s@) == views(keys@).to_set());
        return;
    }
    proof {
        if p < keys@.len() {
            lemma_lex_order(keys@[p as int]@, s@, s@);
            assert(lex_lt(s@, keys@[p as int]@));
            assert forall|l: int| p <= l < keys@.len() implies lex_lt(s@, keys@[l]@) by {
                if l > p {
                    lemma_lex_order(s@, keys@[p as int]@, keys@[l]@);
                }
            }
        }
    }
    let ghost sv = s@;
    keys.insert(p, s);
    proof {
        assert forall|k: int, l: int| 0 <= k < l < keys@.len() implies lex_lt(keys@[k]@, keys@[l]@) by {
            if l == p {
                assert(keys@[l]@ == sv);
            } else if k == p {
                assert(keys@[k]@ == sv);
                assert(keys@[l] == old_keys[l - 1]);
            } else if k > p {
                assert(keys@[k] == old_keys[k - 1]);
                assert(keys@[l] == old_keys[l - 1]);
            } else if l > p {
                assert(keys@[l] == old_keys[l - 1]);
            }
        }
        assert(views(keys@) == views(old_keys).insert(p as int, sv));
        assert(views(keys@).to_set() == views(old_keys).to_set().insert(sv)) by {
            assert forall|x: Seq<char>| views(keys@).contains(x) <==> views(old_keys).to_set().insert(sv).contains(x) by {
                if views(keys@).contains(x) {
                    let i = choose|i: int| 0 <= i < views(keys@).len() && views(keys@)[i] == x;
                    if i < p {
                        assert(views(old_keys)[i] == x);
                    } else if i > p {
                        assert(views(old_keys)[i - 1] == x);
                    }
                }
                if views(old_keys).contains(x) {
                    let i = choose|i: int| 0 <= i < views(old_keys).len() && views(old_keys)[i] == x;
                    if i < p {
                        assert(views(keys@)[i] == x);
                    } else {
                        assert(views(keys@)[i + 1] == x);
                    }
                }
                if x == sv {
                    assert(views(keys@)[p as int] == x);
                }
            }
        }
    }
}

/// One entry per distinct track arrangement in the library: its signature,
/// the recording to probe (the longest: short clips make poor samples), and
/// how many recordings share it.
pub fn layouts(recs: &Vec<Recording>) -> (r: Vec<(String, usize, usize)>)
    ensures
        layouts_of(recs@, layout_views(r@)),
{
    let ghost sigs = signatures(recs@);
    let n = recs.len();
    let mut sv: Vec<String> = Vec::new();
    let mut keys: Vec<String> = Vec::new();
    let mut i: usize = 0;
    while i < n
        invariant
            n == recs@.len(),
            sigs == signatures(recs@),
            i <= n,
            views(sv@) == sigs.take(i as int),
            forall|k: int, l: int| 0 <= k < l < keys@.len() ==> lex_lt(keys@[k]@, keys@[l]@),
            views(keys@).to_set() == sigs.take(i as int).to_set(),
        decreases n - i,
    {
        let sig = signature(&recs[i]);
        let sig2 = sig.clone();
        let ghost before = sv@;
        proof {
            assert(sigs.take(i + 1) == sigs.take(i as int).push(sig@));
            sigs.take(i as int).lemma_push_to_set_commute(sig@);
        }
        sv.push(sig);
        assert(views(sv@) == views(before).push(sig2@));
        insert_sorted(&mut keys, sig2);
        i = i + 1;
    }
    assert(sigs.take(n as int) == sigs);

    let mut out: Vec<(String, usize, usize)> = Vec::new();
    let mut k: usize = 0;
    while k < keys.len()
        invariant
            n == recs@.len(),
            sigs == signatures(recs@),
            views(sv@) == sigs,
            forall|a: int, b: int| 0 <= a < b < keys@.len() ==> lex_lt(keys@[a]@, keys@[b]@),
            views(keys@).to_set() == sigs.to_set(),
            k <= keys@.len(),
            out@.len() == k,
            forall|m: int| 0 <= m < k ==> (#[trigger] out@[m]).0@ == keys@[m]@,
            forall|m: int| 0 <= m < k ==> is_example(recs@, keys@[m]@, (#[trigger] out@[m]).1 as int),
            forall|m: int| 0 <= m < k ==> (#[trigger] out@[m]).2 == layout_count(recs@, keys@[m]@),
        decreases keys@.len() - k,
    {
        let key = &keys[k];
        proof {
            assert(views(keys@).to_set().contains(keys@[k as int]@)) by {
                assert(views(keys@)[k as int] == keys@[k as int]@);
            }
        }
        let (e, c) = example_of(recs, &sv, key);
        out.push((key.clone(), e, c));
        k = k + 1;
    }
    proof {
        let r = layout_views(out@);
        assert forall|a: int, b: int| 0 <= a < b < r.len() implies lex_lt(r[a].0, r[b].0) by {
            assert(r[a].0 == keys@[a]@);
            assert(r[b].0 == keys@[b]@);
        }
        assert forall|i: int| 0 <= i < recs@.len() implies listed(r, #[trigger] signatures(recs@)[i]) by {
            assert(sigs.to_set().contains(sigs[i]));
            assert(views(keys@).contains(sigs[i]));
            let m = choose|m: int| 0 <= m < views(keys@).len() && views(keys@)[m] == sigs[i];
            assert(r[m].0 == keys@[m]@);
        }
        assert forall|m: int| 0 <= m < r.len() implies is_example(recs@, r[m].0, #[trigger] r[m].1 as int) by {
            assert(r[m] == (out@[m].0@, out@[m].1, out@[m].2));
        }
        assert forall|m: int| 0 <= m < r.len() implies #[trigger] r[m].2 == layout_count(recs@, r[m].0) by {
            assert(r[m] == (out@[m].0@, out@[m].1, out@[m].2));
        }
        assert(forall|a: int, b: int| 0 <= a < b < r.len() ==> lex_lt(r[a].0, r[b].0));
        assert(forall|m: int| 0 <= m < r.len() ==> is_example(recs@, r[m].0, #[trigger] r[m].1 as int));
        assert(forall|m: int| 0 <= m < r.len() ==> #[trigger] r[m].2 == layout_count(recs@, r[m].0));
        assert(layouts_of(recs@, r));
    }
    out
}

/// The recording to probe for layout `key`, and how many recordings have it.
fn example_of(recs: &Vec<Recording>, sv: &Vec<String>, key: &String) -> (r: (usize, usize))
    requires
        views(sv@) == signatures(recs@),
        signatures(recs@).contains(key@),
    ensures
        is_example(recs@, key@, r.0 as int),
        r.1 == layout_count(recs@, key@),
{
    let ghost sigs = signatures(recs@);
    let ghost f = same_as(key@);
    let n = recs.len();
    assert(views(sv@).len() == sv@.len());
    let mut best: Option<usize> = None;
    let mut count: usize = 0;
    let mut j: usize = 0;
    while j < n
        invariant
            n == recs@.len(),
            sigs == signatures(recs@),
            views(sv@) == sigs,
            sv@.len() == n,
            f == same_as(key@),
            j <= n,
            count == sigs.take(j as int).filter(f).len(),
            count <= j,
            best is None ==> forall|m: int| 0 <= m < j ==> sigs[m] != key@,
            best matches Some(b) ==> b < j && sigs[b as int] == key@ && forall|m: int|
                0 <= m < j && sigs[m] == key@ ==> {
                    &&& recs@[m].duration_order <= recs@[b as int].duration_order
                    &&& (recs@[m].duration_order == recs@[b as int].duration_order ==> b <= m)
                },
        decreases n - j,
    {
        proof {
            assert(sigs.take(j + 1) == sigs.take(j as int).push(sigs[j as int]));
            sigs.take(j as int).lemma_filter_push(sigs[j as int], f);
            assert(views(sv@)[j as int] == sv@[j as int]@);
        }
        if sv[j] == *key {
            count = count + 1;
            match best {
                None => {
                    best = Some(j);
                },
                Some(b) => {
                    if recs[j].duration_order > recs[b].duration_order {
                        best = Some(j);
                    }
                },
            }
        }
        j = j + 1;
    }
    assert(sigs.take(n as int) == sigs);
    match best {
        Some(b) => (b, count),
        None => {
            proof {
                let m = choose|m: int| 0 <= m < sigs.len() && sigs[m] == key@;
            }
            (0, count)
        },
    }
}

/// Every recording is counted under exactly one layout, so the counts add
/// up to the number of recordings: each layout's count is the number of
/// recordings with its signature, and every recording's signature is listed.
pub proof fn law_layout_counts(recs: Seq<Recording>, r: Seq<(Seq<char>, usize, usize)>, i: int)
    requires
        layouts_of(recs, r),
        0 <= i < recs.len(),
    ensures
        exists|k: int| 0 <= k < r.len() && r[k].0 == signatures(recs)[i] && r[k].2 >= 1,
{
    let s = signatures(recs)[i];
    assert(listed(r, signatures(recs)[i]));
    let k = choose|k: int| 0 <= k < r.len() && r[k].0 == signatures(recs)[i];
    assert(r[k].2 == layout_count(recs, s));
    let f = same_as(s);
    signatures(recs).lemma_filter_contains(f, i);
    assert(signatures(recs).filter(f).contains(s));
    assert(signatures(recs).filter(f).len() >= 1);
    assert(r[k].0 == signatures(recs)[i] && r[k].2 >= 1);
}

/// Sampled text kept on a probe for the user to read.
pub const SAMPLE_CHARS: usize = 300;

impl TrackProbe {
    /// A probe from what sampling heard on track `index`: the lines joined
    /// by spaces, the first 300 characters of them kept as the sample, and
    /// no role until the layout's tracks are weighed together.
    pub fn heard(index: usize, name: &str, speaks: bool, lines: &Vec<String>) -> (p: TrackProbe)
        ensures
            p.index == index,
            p.name@ == name@,
            p.speaks == speaks,
            p.full@ == joined(views(lines@), " "@),
            p.sample@ == p.full@.take(
                if SAMPLE_CHARS < p.full@.len() {
                    SAMPLE_CHARS as int
                } else {
                    p.full@.len() as int
                },
            ),
            p.role == Role::Unknown,
            !p.confident,
    {
        let full = join(lines, " ");
        let sample = crate::text::take_chars(full.as_str(), SAMPLE_CHARS);
        TrackProbe {
            index,
            name: crate::text::owned(name),
            speaks,
            sample,
            role: Role::Unknown,
            confident: false,
            full,
        }
    }

    /// A probe for a track nobody has listened to: it carries the role
    /// saved for it, confirmed when roles were saved for its layout.
    pub fn unheard(index: usize, name: &str, role: Role, saved: bool) -> (p: TrackProbe)
        ensures
            p.index == index,
            p.name@ == name@,
            !p.speaks,
            p.sample@.len() == 0,
            p.full@.len() == 0,
            p.role == role,
            p.confident == saved,
    {
        TrackProbe {
            index,
            name: crate::text::owned(name),
            speaks: false,
            sample: String::new(),
            role,
            confident: saved,
            full: String::new(),
        }
    }
}

/// The tracks of recordings that share an arrangement, as shown for
/// choosing roles.
#[derive(Debug)]
pub struct Layout {
    /// Identifies recordings that share a track arrangement.
    pub signature: String,
    pub track_count: usize,
    pub recordings: usize,
    pub example: String,
    pub tracks: Vec<TrackProbe>,
}

/// A layout listed without listening to anything, its tracks carrying the
/// roles saved for it, or `Unknown` where there are none.
pub fn listed_layout(signature: String, rec: &Recording, recordings: usize, saved: Option<&Vec<Role>>) -> (l: Layout)
    ensures
        l.signature@ == signature@,
        l.track_count == rec.tracks@.len(),
        l.recordings == recordings,
        l.example@ == rec.name@,
        l.tracks@.len() == rec.tracks@.len(),
        forall|i: int|
            #![trigger l.tracks@[i]]
            0 <= i < l.tracks@.len() ==> {
                let p = l.tracks@[i];
                &&& p.index == i
                &&& p.name@ == rec.tracks@[i].name@
                &&& p.role == (match saved {
                    Some(r) => if i < r@.len() { r@[i] } else { Role::Unknown },
                    None => Role::Unknown,
                })
                &&& p.confident == saved is Some
                &&& !p.speaks
                &&& p.sample@.len() == 0
                &&& p.full@.len() == 0
            },
{
    let mut tracks: Vec<TrackProbe> = Vec::new();
    let mut i: usize = 0;
    while i < rec.tracks.len()
        invariant
            i <= rec.tracks@.len(),
            tracks@.len() == i,
            forall|j: int|
                #![trigger tracks@[j]]
                0 <= j < i ==> {
                    let p = tracks@[j];
                    &&& p.index == j
                    &&& p.name@ == rec.tracks@[j].name@
                    &&& p.role == (match saved {
                        Some(r) => if j < r@.len() { r@[j] } else { Role::Unknown },
                        None => Role::Unknown,
                    })
                    &&& p.confident == saved is Some
                    &&& !p.speaks
                    &&& p.sample@.len() == 0
                    &&& p.full@.len() == 0
                },
        decreases rec.tracks@.len() - i,
    {
        let role = match saved {
            Some(r) => if i < r.len() { r[i] } else { Role::Unknown },
            None => Role::Unknown,
        };
        let p = TrackProbe::unheard(i, rec.tracks[i].name.as_str(), role, saved.is_some());
        tracks.push(p);
        i = i + 1;
    }
    Layout {
        signature,
        track_count: rec.tracks.len(),
        recordings,
        example: crate::text::owned(rec.name.as_str()),
        tracks,
    }
}

} // verus!

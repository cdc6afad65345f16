use vstd::prelude::*;

use crate::chord_type::ChordType;
use crate::combinatorics::{cartesian_product, contents, key_le, picks_one_of_each, sort_keys, SortKey};
use crate::note::Note;
use crate::tuning::Tuning;
use crate::voicing::{span_of, voicing_key, voicing_lt, UkeString, Voicing};
use crate::{InvalidConfigError, Semitones, VoicingConfig, STRING_COUNT};

verus! {

/// The pitch classes reached from the root pitch class `root` by the intervals `ivs`.
pub open spec fn pcs_above(root: nat, ivs: Seq<u8>) -> Seq<nat> {
    ivs.map_values(|x: u8| ((root + x) % 12) as nat)
}

/// A voicing that sounds `sounded` spells out a chord with required pitch classes `required`
/// and pitch classes `all`: each required one sounds, and nothing sounds outside `all`.
pub open spec fn spells(sounded: Seq<nat>, required: Seq<nat>, all: Seq<nat>) -> bool {
    &&& forall|i: int| 0 <= i < required.len() ==> sounded.contains(#[trigger] required[i])
    &&& forall|j: int| 0 <= j < sounded.len() ==> all.contains(#[trigger] sounded[j])
}

/// The pitch classes that sound on an instrument with the given tuning when the frets `f`
/// are pressed down.
pub open spec fn sounded_on(tuning: Tuning, f: Seq<u8>) -> Seq<nat> {
    Seq::new(STRING_COUNT as nat, |i: int| ((tuning.root_pcs()[i] + f[i]) % 12) as nat)
}

/// The frets of the strings `c`.
pub open spec fn frets_of(c: Seq<UkeString>) -> Seq<u8> {
    c.map_values(|u: UkeString| u.fret)
}

/// The part of a sort key that orders voicings: all but the index.
pub open spec fn order_part(t: SortKey) -> (int, int, int, int, int, int) {
    (t.0 as int, t.1 as int, t.2 as int, t.3 as int, t.4 as int, t.5 as int)
}

/// Whether `x` is one of the items of `v`.
fn occurs(v: &Vec<u8>, x: u8) -> (r: bool)
    ensures
        r == v@.contains(x),
{
    let mut i: usize = 0;
    while i < v.len()
        invariant
            0 <= i <= v.len(),
            forall|k: int| 0 <= k < i ==> v@[k] != x,
        decreases v.len() - i,
    {
        if v[i] == x {
            return true;
        }
        i = i + 1;
    }
    false
}

/// The pitch classes `root + x` for the intervals `x` of `ivs`.
fn pitch_classes_above(root: &Note, ivs: &Vec<u8>) -> (r: Vec<u8>)
    requires
        forall|i: int| 0 <= i < ivs.len() ==> #[trigger] ivs@[i] < 24,
    ensures
        r@.len() == ivs@.len(),
        forall|i: int| 0 <= i < ivs.len() ==> #[trigger] r@[i] as nat == pcs_above(root.pc(), ivs@)[i],
{
    let base = root.pitch_class.index();
    let mut r: Vec<u8> = Vec::new();
    let mut i: usize = 0;
    while i < ivs.len()
        invariant
            0 <= i <= ivs.len(),
            base == root.pc(),
            forall|k: int| 0 <= k < ivs.len() ==> #[trigger] ivs@[k] < 24,
            r@.len() == i,
            forall|k: int| 0 <= k < i ==> #[trigger] r@[k] as nat == pcs_above(root.pc(), ivs@)[k],
        decreases ivs.len() - i,
    {
        r.push((base + ivs[i]) % 12);
        i = i + 1;
    }
    r
}

/// A chord: a root note and a chord type, with the notes that these give.
#[derive(Debug, Clone)]
pub struct Chord {
    pub root: Note,
    pub chord_type: ChordType,
    pub notes: Vec<Note>,
}

impl PartialEq for Chord {
    fn eq(&self, other: &Chord) -> (r: bool) {
        self.root == other.root && self.chord_type == other.chord_type
    }
}

impl vstd::std_specs::cmp::PartialEqSpecImpl for Chord {
    open spec fn obeys_eq_spec() -> bool {
        true
    }

    open spec fn eq_spec(&self, other: &Chord) -> bool {
        self.root.pc() == other.root.pc() && self.chord_type == other.chord_type
    }
}

impl Eq for Chord {}

impl std::ops::Add<Semitones> for Chord {
    type Output = Chord;

    /// The chord moved up by `n` semitones, as `add_semitones`.
    fn add(self, n: Semitones) -> (r: Chord)
        ensures
            r.root.pc() == (self.root.pc() + n) % 12,
            !r.root.flat,
            r.chord_type == self.chord_type,
            r.wf(),
    {
        self.add_semitones(n)
    }
}

/// What `+` gives is stated by the `ensures` of `add`; no spec function of the chord
/// stands for it, so the generic one is not claimed.
impl vstd::std_specs::ops::AddSpecImpl<Semitones> for Chord {
    open spec fn obeys_add_spec() -> bool {
        false
    }

    open spec fn add_req(self, n: Semitones) -> bool {
        true
    }

    open spec fn add_spec(self, n: Semitones) -> Chord {
        self
    }
}

impl std::ops::Sub<Semitones> for Chord {
    type Output = Chord;

    /// The chord moved down by `n` semitones, as `sub_semitones`.
    fn sub(self, n: Semitones) -> (r: Chord)
        ensures
            r.root.pc() == (self.root.pc() - n) % 12,
            r.root.flat,
            r.chord_type == self.chord_type,
            r.wf(),
    {
        self.sub_semitones(n)
    }
}

/// What `-` gives is stated by the `ensures` of `sub`; no spec function of the chord
/// stands for it, so the generic one is not claimed.
impl vstd::std_specs::ops::SubSpecImpl<Semitones> for Chord {
    open spec fn obeys_sub_spec() -> bool {
        false
    }

    open spec fn sub_req(self, n: Semitones) -> bool {
        true
    }

    open spec fn sub_spec(self, n: Semitones) -> Chord {
        self
    }
}

impl Chord {
    /// The pitch classes of the chord: root plus each required interval, then root plus
    /// each optional interval.
    pub open spec fn note_pcs(self) -> Seq<nat> {
        pcs_above(self.root.pc(), self.chord_type.intervals())
    }

    /// The pitch classes that every voicing of the chord must sound.
    pub open spec fn required_pcs(self) -> Seq<nat> {
        pcs_above(self.root.pc(), self.chord_type.required())
    }

    /// The pitch classes played on the instrument: those of the chord, up to one per string.
    pub open spec fn played_pcs(self) -> Seq<nat> {
        let n = self.chord_type.intervals().len();
        self.note_pcs().take(if n < STRING_COUNT { n as int } else { STRING_COUNT as int })
    }

    /// The notes of the chord are those of its root and type.
    pub open spec fn wf(self) -> bool {
        &&& self.notes@.len() == self.chord_type.intervals().len()
        &&& forall|i: int|
            0 <= i < self.notes@.len() ==> (#[trigger] self.notes@[i]).pc() == self.note_pcs()[i]
    }

    pub fn new(root: Note, chord_type: ChordType) -> (r: Chord)
        ensures
            r.root == root,
            r.chord_type == chord_type,
            r.wf(),
            forall|i: int| 0 <= i < r.notes@.len() ==> !(#[trigger] r.notes@[i]).flat,
    {
        let mut ivs = chord_type.required_intervals();
        let mut opt = chord_type.optional_intervals();
        ivs.append(&mut opt);
        let mut notes: Vec<Note> = Vec::new();
        let mut i: usize = 0;
        while i < ivs.len()
            invariant
                0 <= i <= ivs.len(),
                ivs@ == chord_type.intervals(),
                notes@.len() == i,
                forall|k: int|
                    0 <= k < i ==> (#[trigger] notes@[k]).pc() == pcs_above(
                        root.pc(),
                        chord_type.intervals(),
                    )[k] && !notes@[k].flat,
            decreases ivs.len() - i,
        {
            notes.push(root.add_semitones(ivs[i]));
            i = i + 1;
        }
        Chord { root, chord_type, notes }
    }

    /// The notes of the chord that are played on the instrument: required notes first,
    /// then optional ones, at most one per string.
    pub fn played_notes(&self) -> (r: Vec<Note>)
        ensures
            r@.len() == self.played_pcs().len(),
            forall|i: int| 0 <= i < r@.len() ==> (#[trigger] r@[i]).pc() == self.played_pcs()[i],
            forall|i: int| 0 <= i < r@.len() ==> !(#[trigger] r@[i]).flat,
    {
        let mut ivs = self.chord_type.required_intervals();
        let mut opt = self.chord_type.optional_intervals();
        ivs.append(&mut opt);
        let n: usize = if ivs.len() < STRING_COUNT { ivs.len() } else { STRING_COUNT };
        let mut notes: Vec<Note> = Vec::new();
        let mut i: usize = 0;
        while i < n
            invariant
                0 <= i <= n,
                n <= ivs.len(),
                n == self.played_pcs().len(),
                ivs@ == self.chord_type.intervals(),
                notes@.len() == i,
                forall|k: int| 0 <= k < i ==> (#[trigger] notes@[k]).pc() == self.note_pcs()[k] && !notes@[k].flat,
            decreases n - i,
        {
            notes.push(self.root.add_semitones(ivs[i]));
            i = i + 1;
        }
        notes
    }

    /// The chord moved up by `n` semitones; black keys of the new root take sharps.
    pub fn add_semitones(&self, n: u8) -> (r: Chord)
        ensures
            r.root.pc() == (self.root.pc() + n) % 12,
            !r.root.flat,
            r.chord_type == self.chord_type,
            r.wf(),
    {
        Chord::new(self.root.add_semitones(n), self.chord_type)
    }

    /// The chord moved down by `n` semitones; black keys of the new root take flats.
    pub fn sub_semitones(&self, n: u8) -> (r: Chord)
        ensures
            r.root.pc() == (self.root.pc() - n) % 12,
            r.root.flat,
            r.chord_type == self.chord_type,
            r.wf(),
    {
        Chord::new(self.root.sub_semitones(n), self.chord_type)
    }

    /// The chord moved by `semitones`: up where it is positive, down where it is negative.
    pub fn transpose(&self, semitones: i8) -> (r: Chord)
        ensures
            r.root.pc() == (self.root.pc() + semitones) % 12,
            r.root.flat == (semitones < 0),
            r.chord_type == self.chord_type,
            r.wf(),
    {
        if semitones < 0 {
            let n: u8 = (-(semitones as i16)) as u8;
            self.sub_semitones(n)
        } else {
            self.add_semitones(semitones as u8)
        }
    }

    /// On a string with root pitch class `root`, pressing down `fret` sounds a played note
    /// of the chord, and the fret lies within the bounds of the configuration and below
    /// the second octave.
    pub open spec fn fret_candidate(self, config: VoicingConfig, root: nat, fret: nat) -> bool {
        &&& config.min_fret <= fret <= config.max_fret
        &&& fret < 24
        &&& self.played_pcs().contains((root + fret) % 12)
    }

    /// The frets `f` give a voicing of the chord under the configuration: each fret is a
    /// candidate on its string, the voicing spells out the chord, and its span is allowed.
    pub open spec fn generates(self, config: VoicingConfig, f: Seq<u8>) -> bool {
        &&& f.len() == STRING_COUNT
        &&& forall|i: int|
            0 <= i < STRING_COUNT ==> self.fret_candidate(
                config,
                config.tuning.root_pcs()[i],
                #[trigger] f[i] as nat,
            )
        &&& spells(sounded_on(config.tuning, f), self.required_pcs(), self.note_pcs())
        &&& span_of(f) <= config.max_span
    }

    /// `vs` lists each voicing that the chord generates under the configuration exactly
    /// once, in ascending order, and nothing else.
    pub open spec fn lists_voicings(self, config: VoicingConfig, vs: Seq<Voicing>) -> bool {
        &&& forall|j: int|
            0 <= j < vs.len() ==> (#[trigger] vs[j]).fits(config.tuning) && self.generates(
                config,
                vs[j].frets(),
            )
        &&& forall|f: Seq<u8>| #[trigger]
            self.generates(config, f) ==> exists|j: int| 0 <= j < vs.len() && (#[trigger] vs[j]).frets() == f
        &&& forall|i: int, j: int|
            0 <= i < j < vs.len() ==> voicing_lt((#[trigger] vs[i]).frets(), (#[trigger] vs[j]).frets())
    }

    /// The string `u` has the root pitch class `root`, sounds its fret, and the fret is a
    /// candidate.
    pub open spec fn good_string(self, config: VoicingConfig, root: nat, u: UkeString) -> bool {
        &&& u.root.pc() == root
        &&& u.note.pc() == (root + u.fret) % 12
        &&& self.fret_candidate(config, root, u.fret as nat)
    }

    /// The strings `l` are what a string with root pitch class `root` offers the chord:
    /// each sounds its fret, each fret is a candidate, and every candidate fret is there.
    pub open spec fn candidates(self, config: VoicingConfig, root: nat, l: Seq<UkeString>) -> bool {
        &&& forall|k: int|
            0 <= k < l.len() ==> {
                &&& (#[trigger] l[k]).root.pc() == root
                &&& l[k].note.pc() == (root + l[k].fret) % 12
                &&& self.fret_candidate(config, root, l[k].fret as nat)
            }
        &&& forall|fret: nat| #[trigger]
            self.fret_candidate(config, root, fret) ==> exists|k: int|
                0 <= k < l.len() && (#[trigger] l[k]).fret == fret
    }

    /// The voicing made of the strings `c`, one picked from each list of `strings`.
    fn voicing_of(&self, c: &Vec<UkeString>, config: VoicingConfig, strings: Ghost<Seq<Seq<UkeString>>>) -> (v: Voicing)
        requires
            strings@.len() == STRING_COUNT,
            forall|i: int| 0 <= i < STRING_COUNT ==> self.candidates(config, config.tuning.root_pcs()[i], #[trigger] strings@[i]),
            picks_one_of_each(strings@, c@),
        ensures
            v.fits(config.tuning),
            v.frets() == frets_of(c@),
            v.sounded() == sounded_on(config.tuning, v.frets()),
            forall|i: int|
                0 <= i < STRING_COUNT ==> self.fret_candidate(
                    config,
                    config.tuning.root_pcs()[i],
                    #[trigger] v.frets()[i] as nat,
                ),
    {
        let v = Voicing { uke_strings: [c[0], c[1], c[2], c[3]] };
        let tuning = config.tuning;
        assert forall|i: int| 0 <= i < STRING_COUNT implies {
            &&& (#[trigger] v.uke_strings@[i]).root.pc() == tuning.root_pcs()[i]
            &&& v.uke_strings@[i].note.pc() == (tuning.root_pcs()[i] + v.uke_strings@[i].fret) % 12
            &&& self.fret_candidate(config, tuning.root_pcs()[i], v.uke_strings@[i].fret as nat)
        } by {
            assert(strings@[i].contains(c@[i]));
            let w = choose|w: int| 0 <= w < strings@[i].len() && strings@[i][w] == c@[i];
            assert(self.candidates(config, tuning.root_pcs()[i], strings@[i]));
            assert(v.uke_strings@[i] == strings@[i][w]);
        }
        assert(v.frets() =~= frets_of(c@));
        assert(v.sounded() =~= sounded_on(tuning, v.frets()));
        v
    }

    /// Every voicing of the chord under the configuration, each once, in ascending order
    /// of position, span and frets.
    pub fn voicings(&self, config: VoicingConfig) -> (r: Result<Vec<Voicing>, InvalidConfigError>)
        ensures
            match r {
                Ok(vs) => config.min_fret <= config.max_fret && self.lists_voicings(config, vs@),
                Err(e) => config.min_fret > config.max_fret && e.min_fret == config.min_fret
                    && e.max_fret == config.max_fret,
            },
    {
        if config.min_fret > config.max_fret {
            return Err(InvalidConfigError { min_fret: config.min_fret, max_fret: config.max_fret });
        }
        let played = self.played_notes();
        let roots = config.tuning.roots();
        let tuning = config.tuning;
        // The frets of each string that sound a played note.
        let mut lists: Vec<Vec<UkeString>> = Vec::new();
        let mut s: usize = 0;
        while s < STRING_COUNT
            invariant
                0 <= s <= STRING_COUNT,
                lists@.len() == s,
                played@.len() == self.played_pcs().len(),
                forall|i: int| 0 <= i < played@.len() ==> (#[trigger] played@[i]).pc() == self.played_pcs()[i],
                forall|i: int| 0 <= i < STRING_COUNT ==> #[trigger] roots@[i].pc() == tuning.root_pcs()[i],
                forall|i: int| 0 <= i < s ==> self.candidates(config, tuning.root_pcs()[i], #[trigger] lists@[i]@),
            decreases STRING_COUNT - s,
        {
            let l = self.string_candidates(roots[s], &played, config);
            lists.push(l);
            s = s + 1;
        }
        let ghost strings = contents(lists@);
        assert forall|i: int| 0 <= i < STRING_COUNT implies self.candidates(config, tuning.root_pcs()[i], #[trigger] strings[i]) by {
            assert(strings[i] == lists@[i]@);
        }
        let combos = cartesian_product(lists);
        // The combinations that make a voicing of the chord, with their sort keys.
        let mut found: Vec<Voicing> = Vec::new();
        let mut keys: Vec<SortKey> = Vec::new();
        let mut k: usize = 0;
        while k < combos.len()
            invariant
                0 <= k <= combos.len(),
                tuning == config.tuning,
                strings.len() == STRING_COUNT,
                forall|i: int| 0 <= i < STRING_COUNT ==> self.candidates(config, tuning.root_pcs()[i], #[trigger] strings[i]),
                forall|m: int| 0 <= m < combos.len() ==> picks_one_of_each(strings, #[trigger] combos@[m]@),
                keys@.len() == found@.len(),
                forall|m: int|
                    0 <= m < found@.len() ==> {
                        &&& (#[trigger] found@[m]).fits(tuning)
                        &&& self.generates(config, found@[m].frets())
                        &&& order_part(keys@[m]) == voicing_key(found@[m].frets())
                        &&& keys@[m].6 == m
                    },
                forall|m: int|
                    0 <= m < k && self.generates(config, frets_of(#[trigger] combos@[m]@)) ==> exists|n: int|
                        0 <= n < found@.len() && (#[trigger] found@[n]).frets() == frets_of(combos@[m]@),
            decreases combos.len() - k,
        {
            let c = &combos[k];
            let v = self.voicing_of(c, config, Ghost(strings));
            let ghost found0 = found@;
            let spelled = self.spelled_out_by(&v);
            let span = v.get_span();
            if spelled && span <= config.max_span {
                let position = v.get_min_fret();
                let key: SortKey = (
                    position,
                    span,
                    v.uke_strings[0].fret,
                    v.uke_strings[1].fret,
                    v.uke_strings[2].fret,
                    v.uke_strings[3].fret,
                    found.len(),
                );
                keys.push(key);
                found.push(v);
            }
            proof {
                let n = found@.len() - 1;
                assert forall|m: int|
                    0 <= m < k + 1 && self.generates(config, frets_of(#[trigger] combos@[m]@)) implies exists|n: int|
                    0 <= n < found@.len() && (#[trigger] found@[n]).frets() == frets_of(combos@[m]@) by {
                    if m == k {
                        assert(found@[n].frets() == frets_of(combos@[m]@));
                    } else {
                        let n0 = choose|n0: int|
                            0 <= n0 < found0.len() && (#[trigger] found0[n0]).frets() == frets_of(combos@[m]@);
                        assert(found@[n0] == found0[n0]);
                    }
                }
            }
            k = k + 1;
        }
        let ghost kv = keys@;
        let sorted = sort_keys(keys);
        proof {
            broadcast use vstd::seq_lib::group_to_multiset_ensures;
            assert forall|p: int| 0 <= p < sorted@.len() implies kv.contains(#[trigger] sorted@[p]) by {
                assert(sorted@.to_multiset().count(sorted@[p]) > 0);
            }
        }
        // Keep one voicing of each key.
        let mut out: Vec<Voicing> = Vec::new();
        let mut last: SortKey = (0, 0, 0, 0, 0, 0, 0);
        let mut p: usize = 0;
        while p < sorted.len()
            invariant
                0 <= p <= sorted.len(),
                kv.len() == found@.len(),
                forall|m: int|
                    0 <= m < found@.len() ==> {
                        &&& (#[trigger] found@[m]).fits(tuning)
                        &&& self.generates(config, found@[m].frets())
                        &&& order_part(kv[m]) == voicing_key(found@[m].frets())
                        &&& kv[m].6 == m
                    },
                forall|q: int| 0 <= q < sorted@.len() ==> kv.contains(#[trigger] sorted@[q]),
                forall|i: int, j: int| 0 <= i < j < sorted.len() ==> key_le(#[trigger] sorted@[i], #[trigger] sorted@[j]),
                forall|j: int|
                    0 <= j < out@.len() ==> (#[trigger] out@[j]).fits(tuning) && self.generates(
                        config,
                        out@[j].frets(),
                    ),
                forall|i: int, j: int|
                    0 <= i < j < out@.len() ==> voicing_lt((#[trigger] out@[i]).frets(), (#[trigger] out@[j]).frets()),
                p > 0 ==> out@.len() > 0 && last == sorted@[p - 1] && voicing_key(out@.last().frets()) == order_part(last),
                p == 0 ==> out@.len() == 0,
                forall|q: int|
                    0 <= q < p ==> exists|j: int|
                        0 <= j < out@.len() && voicing_key((#[trigger] out@[j]).frets()) == order_part(#[trigger] sorted@[q]),
            decreases sorted.len() - p,
        {
            let t = sorted[p];
            assert(kv.contains(t));
            let ghost m = choose|m: int| 0 <= m < kv.len() && kv[m] == t;
            assert(kv[m] == t);
            assert(order_part(kv[m]) == voicing_key(found@[m].frets()));
            assert(t.6 == m);
            let is_new = p == 0 || t.0 != last.0 || t.1 != last.1 || t.2 != last.2 || t.3 != last.3
                || t.4 != last.4 || t.5 != last.5;
            let ghost out0 = out@;
            if is_new {
                let v = found[t.6];
                proof {
                    if p > 0 {
                        assert(key_le(sorted@[p - 1], sorted@[p as int]));
                        assert forall|i: int| 0 <= i < out0.len() implies voicing_lt((#[trigger] out0[i]).frets(), v.frets()) by {
                            if i < out0.len() - 1 {
                                assert(voicing_lt(out0[i].frets(), out0[out0.len() - 1].frets()));
                            }
                        }
                    }
                }
                out.push(v);
            }
            proof {
                assert forall|q: int|
                    0 <= q < p + 1 implies exists|j: int|
                    0 <= j < out@.len() && voicing_key((#[trigger] out@[j]).frets()) == order_part(#[trigger] sorted@[q]) by {
                    if q < p {
                        let j = choose|j: int|
                            0 <= j < out0.len() && voicing_key((#[trigger] out0[j]).frets()) == order_part(sorted@[q]);
                        assert(out@[j] == out0[j]);
                    } else {
                        assert(voicing_key(out@[out@.len() - 1].frets()) == order_part(sorted@[q]));
                    }
                }
            }
            last = t;
            p = p + 1;
        }
        proof {
            broadcast use vstd::seq_lib::group_to_multiset_ensures;
            assert forall|f: Seq<u8>| #[trigger] self.generates(config, f) implies exists|j: int|
                0 <= j < out@.len() && (#[trigger] out@[j]).frets() == f by {
                self.lemma_generated_is_listed(config, f, strings, combos@, found@, kv, sorted@, out@);
            }
        }
        Ok(out)
    }

    /// Every voicing that the chord generates survives the steps of `voicings`.
    proof fn lemma_generated_is_listed(
        self,
        config: VoicingConfig,
        f: Seq<u8>,
        strings: Seq<Seq<UkeString>>,
        combos: Seq<Vec<UkeString>>,
        found: Seq<Voicing>,
        keys: Seq<SortKey>,
        sorted: Seq<SortKey>,
        out: Seq<Voicing>,
    )
        requires
            self.generates(config, f),
            strings.len() == STRING_COUNT,
            forall|i: int| 0 <= i < STRING_COUNT ==> self.candidates(config, config.tuning.root_pcs()[i], #[trigger] strings[i]),
            forall|c: Seq<UkeString>| #[trigger] picks_one_of_each(strings, c) ==> exists|k: int|
                0 <= k < combos.len() && #[trigger] combos[k]@ == c,
            forall|m: int|
                0 <= m < combos.len() && self.generates(config, frets_of(#[trigger] combos[m]@)) ==> exists|n: int|
                    0 <= n < found.len() && (#[trigger] found[n]).frets() == frets_of(combos[m]@),
            keys.len() == found.len(),
            forall|m: int| 0 <= m < found.len() ==> order_part(#[trigger] keys[m]) == voicing_key(found[m].frets()),
            sorted.to_multiset() == keys.to_multiset(),
            forall|q: int|
                0 <= q < sorted.len() ==> exists|j: int|
                    0 <= j < out.len() && voicing_key((#[trigger] out[j]).frets()) == order_part(#[trigger] sorted[q]),
            forall|j: int| 0 <= j < out.len() ==> (#[trigger] out[j]).frets().len() == STRING_COUNT,
        ensures
            exists|j: int| 0 <= j < out.len() && (#[trigger] out[j]).frets() == f,
    {
        broadcast use vstd::seq_lib::group_to_multiset_ensures;
        let roots = config.tuning.root_pcs();
        assert(self.fret_candidate(config, roots[0], f[0] as nat));
        assert(self.fret_candidate(config, roots[1], f[1] as nat));
        assert(self.fret_candidate(config, roots[2], f[2] as nat));
        assert(self.fret_candidate(config, roots[3], f[3] as nat));
        assert(self.candidates(config, roots[0], strings[0]));
        assert(self.candidates(config, roots[1], strings[1]));
        assert(self.candidates(config, roots[2], strings[2]));
        assert(self.candidates(config, roots[3], strings[3]));
        let k0 = choose|k: int| 0 <= k < strings[0].len() && (#[trigger] strings[0][k]).fret == f[0] as nat;
        let k1 = choose|k: int| 0 <= k < strings[1].len() && (#[trigger] strings[1][k]).fret == f[1] as nat;
        let k2 = choose|k: int| 0 <= k < strings[2].len() && (#[trigger] strings[2][k]).fret == f[2] as nat;
        let k3 = choose|k: int| 0 <= k < strings[3].len() && (#[trigger] strings[3][k]).fret == f[3] as nat;
        let c = seq![strings[0][k0], strings[1][k1], strings[2][k2], strings[3][k3]];
        assert forall|i: int| 0 <= i < strings.len() implies #[trigger] strings[i].contains(c[i]) by {
            if i == 0 {
                assert(strings[0][k0] == c[0]);
            } else if i == 1 {
                assert(strings[1][k1] == c[1]);
            } else if i == 2 {
                assert(strings[2][k2] == c[2]);
            } else {
                assert(strings[3][k3] == c[3]);
            }
        }
        assert(picks_one_of_each(strings, c));
        let k = choose|k: int| 0 <= k < combos.len() && #[trigger] combos[k]@ == c;
        assert(frets_of(combos[k]@) =~= f);
        let n = choose|n: int| 0 <= n < found.len() && (#[trigger] found[n]).frets() == frets_of(combos[k]@);
        assert(keys.contains(keys[n]));
        assert(keys.to_multiset().count(keys[n]) > 0);
        assert(sorted.contains(keys[n]));
        let q = choose|q: int| 0 <= q < sorted.len() && sorted[q] == keys[n];
        assert(order_part(keys[n]) == voicing_key(found[n].frets()));
        let j = choose|j: int|
            0 <= j < out.len() && voicing_key((#[trigger] out[j]).frets()) == order_part(sorted[q]);
        assert(out[j].frets() =~= f);
    }

    /// Whether the voicing spells out the chord: it sounds every required note of the
    /// chord, and no note outside the chord.
    pub fn spelled_out_by(&self, voicing: &Voicing) -> (r: bool)
        ensures
            r == spells(voicing.sounded(), self.required_pcs(), self.note_pcs()),
    {
        let req_ivs = self.chord_type.required_intervals();
        let mut all_ivs = self.chord_type.required_intervals();
        let mut opt = self.chord_type.optional_intervals();
        all_ivs.append(&mut opt);
        assert(all_ivs@ == self.chord_type.intervals());
        let required = pitch_classes_above(&self.root, &req_ivs);
        let all = pitch_classes_above(&self.root, &all_ivs);
        let mut sounded: Vec<u8> = Vec::new();
        let mut i: usize = 0;
        while i < STRING_COUNT
            invariant
                0 <= i <= STRING_COUNT,
                sounded@.len() == i,
                forall|k: int| 0 <= k < i ==> #[trigger] sounded@[k] as nat == voicing.sounded()[k],
            decreases STRING_COUNT - i,
        {
            sounded.push(voicing.uke_strings[i].note.pitch_class.index());
            i = i + 1;
        }
        let mut ok = true;
        let mut j: usize = 0;
        while j < required.len()
            invariant
                0 <= j <= required.len(),
                sounded@.len() == STRING_COUNT,
                forall|k: int| 0 <= k < STRING_COUNT ==> #[trigger] sounded@[k] as nat == voicing.sounded()[k],
                required@.len() == self.required_pcs().len(),
                forall|k: int| 0 <= k < required@.len() ==> #[trigger] required@[k] as nat == self.required_pcs()[k],
                all@.len() == self.note_pcs().len(),
                forall|k: int| 0 <= k < all@.len() ==> #[trigger] all@[k] as nat == self.note_pcs()[k],
                ok == forall|k: int| 0 <= k < j ==> voicing.sounded().contains(#[trigger] self.required_pcs()[k]),
            decreases required.len() - j,
        {
            let found = occurs(&sounded, required[j]);
            proof {
                if found {
                    let w = choose|w: int| 0 <= w < sounded@.len() && sounded@[w] == required@[j as int];
                    assert(voicing.sounded()[w] == self.required_pcs()[j as int]);
                } else {
                    if voicing.sounded().contains(self.required_pcs()[j as int]) {
                        let w = choose|w: int| 0 <= w < voicing.sounded().len() && voicing.sounded()[w] == self.required_pcs()[j as int];
                        assert(sounded@[w] == required@[j as int]);
                    }
                }
            }
            ok = ok && found;
            j = j + 1;
        }
        let mut m: usize = 0;
        while m < STRING_COUNT
            invariant
                0 <= m <= STRING_COUNT,
                sounded@.len() == STRING_COUNT,
                forall|k: int| 0 <= k < STRING_COUNT ==> #[trigger] sounded@[k] as nat == voicing.sounded()[k],
                required@.len() == self.required_pcs().len(),
                forall|k: int| 0 <= k < required@.len() ==> #[trigger] required@[k] as nat == self.required_pcs()[k],
                all@.len() == self.note_pcs().len(),
                forall|k: int| 0 <= k < all@.len() ==> #[trigger] all@[k] as nat == self.note_pcs()[k],
                ok == ((forall|k: int| 0 <= k < required.len() ==> voicing.sounded().contains(#[trigger] self.required_pcs()[k]))
                    && forall|k: int| 0 <= k < m ==> self.note_pcs().contains(#[trigger] voicing.sounded()[k])),
            decreases STRING_COUNT - m,
        {
            let found = occurs(&all, sounded[m]);
            proof {
                if found {
                    let w = choose|w: int| 0 <= w < all@.len() && all@[w] == sounded@[m as int];
                    assert(self.note_pcs()[w] == voicing.sounded()[m as int]);
                } else {
                    if self.note_pcs().contains(voicing.sounded()[m as int]) {
                        let w = choose|w: int| 0 <= w < self.note_pcs().len() && self.note_pcs()[w] == voicing.sounded()[m as int];
                        assert(all@[w] == sounded@[m as int]);
                    }
                }
            }
            ok = ok && found;
            m = m + 1;
        }
        ok
    }
}

} // verus!

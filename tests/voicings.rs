use ukebox::{Chord, ChordType, InvalidConfigError, Note, PitchClass, Tuning, VoicingConfig};

fn chord(root: PitchClass, chord_type: ChordType) -> Chord {
    Chord::new(Note::from_pitch_class(root), chord_type)
}

fn config(min_fret: u8, max_fret: u8, max_span: u8) -> VoicingConfig {
    VoicingConfig { tuning: Tuning::C, min_fret, max_fret, max_span }
}

#[test]
fn open_c_major_comes_first() {
    let c = chord(PitchClass::C, ChordType::Major);
    let voicings = c.voicings(VoicingConfig::default()).unwrap();
    assert!(!voicings.is_empty());
    assert_eq!(voicings[0].get_frets(), [0, 0, 0, 3]);
    let names: Vec<&str> = voicings[0].uke_strings.iter().map(|s| s.note.name()).collect();
    assert_eq!(names, vec!["G", "C", "E", "C"]);
}

#[test]
fn single_fret_without_chord_notes_gives_nothing() {
    // On fret 5 the strings G C E A sound C F A D: no E for C major.
    let c = chord(PitchClass::C, ChordType::Major);
    let voicings = c.voicings(config(5, 5, 0)).unwrap();
    assert!(voicings.is_empty());
}

#[test]
fn empty_fret_range_is_rejected() {
    let c = chord(PitchClass::C, ChordType::Major);
    let r = c.voicings(config(7, 3, 4));
    assert_eq!(r.err(), Some(InvalidConfigError { min_fret: 7, max_fret: 3 }));
}

#[test]
fn every_voicing_spells_out_the_chord_within_bounds() {
    let cfg = config(2, 9, 3);
    for root in [PitchClass::C, PitchClass::FSharp, PitchClass::A] {
        for chord_type in [ChordType::Major, ChordType::MinorSeventh, ChordType::DominantNinth] {
            let c = chord(root, chord_type);
            for v in c.voicings(cfg).unwrap() {
                assert!(c.spelled_out_by(&v));
                assert!(v.get_span() <= 3);
                for f in v.get_frets() {
                    assert!((2..=9).contains(&f));
                }
            }
        }
    }
}

#[test]
fn generation_is_deterministic_and_strictly_ordered() {
    let c = chord(PitchClass::G, ChordType::DominantSeventh);
    let a = c.voicings(VoicingConfig::default()).unwrap();
    let b = c.voicings(VoicingConfig::default()).unwrap();
    let fa: Vec<[u8; 4]> = a.iter().map(|v| v.get_frets()).collect();
    let fb: Vec<[u8; 4]> = b.iter().map(|v| v.get_frets()).collect();
    assert_eq!(fa, fb);
    for w in a.windows(2) {
        let k0 = (w[0].get_min_fret(), w[0].get_span(), w[0].get_frets());
        let k1 = (w[1].get_min_fret(), w[1].get_span(), w[1].get_frets());
        assert!(k0 < k1);
    }
}

#[test]
fn played_notes_drop_optional_notes_first() {
    let names = |c: Chord| -> Vec<&'static str> { c.played_notes().iter().map(|n| n.name()).collect() };
    assert_eq!(names(chord(PitchClass::C, ChordType::Major)), vec!["C", "E", "G"]);
    assert_eq!(names(chord(PitchClass::C, ChordType::DominantSeventh)), vec!["C", "E", "A#", "G"]);
    assert_eq!(names(chord(PitchClass::C, ChordType::DominantEleventh)), vec!["C", "E", "A#", "F"]);
    assert_eq!(names(chord(PitchClass::C, ChordType::DominantThirteenth)), vec!["C", "E", "A#", "A"]);
}

#[test]
fn transpose_moves_the_root() {
    let c = chord(PitchClass::C, ChordType::Minor);
    let up = c.transpose(1);
    assert_eq!(up.root.pitch_class, PitchClass::CSharp);
    assert_eq!(up.root.name(), "C#");
    assert_eq!(up.chord_type, ChordType::Minor);
    let down = chord(PitchClass::C, ChordType::MajorSeventh).transpose(-2);
    assert_eq!(down.root.pitch_class, PitchClass::ASharp);
    assert_eq!(down.root.name(), "Bb");
    let same = chord(PitchClass::A, ChordType::Major).transpose(-12);
    assert_eq!(same.root.pitch_class, PitchClass::A);
    assert_eq!(chord(PitchClass::A, ChordType::Diminished).transpose(-3), chord(PitchClass::FSharp, ChordType::Diminished));
}

#[test]
fn chord_notes_follow_the_intervals() {
    let c = chord(PitchClass::D, ChordType::DominantSeventh);
    let pcs: Vec<PitchClass> = c.notes.iter().map(|n| n.pitch_class).collect();
    assert_eq!(pcs, vec![PitchClass::D, PitchClass::FSharp, PitchClass::C, PitchClass::A]);
}

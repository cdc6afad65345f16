use ukebox::PitchClass::{ASharp, CSharp, DSharp, FSharp, GSharp, A, B, C, D, E, F, G};
use ukebox::chord_type::CHORD_TYPE_COUNT;
use ukebox::{Chord, ChordType, FretPattern, Note, PitchClass, Tuning, Voicing};

#[test]
fn c_e_g_is_c_major() {
    let c = Chord::from_pitch_classes(&[PitchClass::C, PitchClass::E, PitchClass::G]).unwrap();
    assert_eq!(c.root.pitch_class, PitchClass::C);
    assert_eq!(c.chord_type, ChordType::Major);
}

#[test]
fn order_after_the_root_does_not_matter() {
    let c = Chord::from_pitch_classes(&[PitchClass::C, PitchClass::G, PitchClass::E]).unwrap();
    assert_eq!(c, Chord::new(Note::from_pitch_class(PitchClass::C), ChordType::Major));
}

#[test]
fn other_chord_types_are_recovered() {
    let cases: Vec<(Vec<PitchClass>, &str)> = vec![
        (vec![C, E, G], "C"),
        (vec![C, DSharp, G], "Cm"),
        (vec![C, D, G], "Csus2"),
        (vec![C, F, G], "Csus4"),
        (vec![C, E, GSharp], "Caug"),
        (vec![C, DSharp, FSharp], "Cdim"),
        (vec![C, E, G, ASharp], "C7"),
        (vec![C, DSharp, G, ASharp], "Cm7"),
        (vec![C, E, G, B], "Cmaj7"),
        (vec![C, DSharp, G, B], "CmMaj7"),
        (vec![C, E, GSharp, ASharp], "Caug7"),
        (vec![C, E, GSharp, B], "CaugMaj7"),
        (vec![C, DSharp, FSharp, A], "Cdim7"),
        (vec![C, DSharp, FSharp, ASharp], "Cm7b5"),
        (vec![D, FSharp, A], "D"),
        (vec![D, F, A], "Dm"),
        (vec![D, FSharp, A, C], "D7"),
        (vec![G, B, D], "G"),
        (vec![C, G, E], "C"),
    ];
    for (pcs, name) in cases {
        assert_eq!(Chord::from_pitch_classes(&pcs).unwrap(), Chord::from_name(name).unwrap());
    }
}

#[test]
fn extra_or_missing_notes_match_no_chord_type() {
    assert!(Chord::from_pitch_classes(&[C, CSharp, D]).is_err());
    // C E Bb lacks the fifth of C7, and no chord type has exactly these intervals.
    assert!(ChordType::from_pitch_classes(&[C, E, ASharp]).is_err());
}

#[test]
fn notes_of_every_chord_recover_it() {
    for p in 0..CHORD_TYPE_COUNT {
        let chord_type = ChordType::from_position(p);
        for root in [C, FSharp, B] {
            let c = Chord::new(Note::from_pitch_class(root), chord_type);
            let pcs: Vec<PitchClass> = c.notes.iter().map(|n| n.pitch_class).collect();
            assert_eq!(Chord::from_pitch_classes(&pcs).unwrap(), c);
        }
    }
}

#[test]
fn chord_names_are_parsed() {
    let c = Chord::from_name("C").unwrap();
    assert_eq!(c.root.pitch_class, C);
    assert_eq!(c.chord_type, ChordType::Major);
    let c = Chord::from_name("C#m7").unwrap();
    assert_eq!(c.root.pitch_class, CSharp);
    assert_eq!(c.root.name(), "C#");
    assert_eq!(c.chord_type, ChordType::MinorSeventh);
    let c = Chord::from_name("Dbmaj7").unwrap();
    assert_eq!(c.root.name(), "Db");
    assert_eq!(c.chord_type, ChordType::MajorSeventh);
    let c = Chord::from_name("Bb7b9").unwrap();
    assert_eq!(c.root.pitch_class, ASharp);
    assert_eq!(c.chord_type, ChordType::DominantSeventhFlatNinth);
    let pcs: Vec<PitchClass> = Chord::from_name("F").unwrap().notes.iter().map(|n| n.pitch_class).collect();
    assert_eq!(pcs, vec![F, A, C]);
}

#[test]
fn bad_chord_names_are_rejected() {
    for name in ["Z", "c", "ABC", "C#mb5", "C#mbla", "CmMaj", "CmMaj7b5", ""] {
        let e = Chord::from_name(name).unwrap_err();
        assert_eq!(e.name, name);
    }
}

#[test]
fn chord_symbols_are_parsed() {
    assert_eq!(ChordType::from_symbol("m7"), Ok(ChordType::MinorSeventh));
    assert_eq!(ChordType::from_symbol(""), Ok(ChordType::Major));
    assert_eq!(ChordType::from_symbol("sus4"), Ok(ChordType::SuspendedFourth));
    assert!(ChordType::from_symbol("xyz").is_err());
    assert!(ChordType::from_symbol("M7 ").is_err());
}

#[test]
fn note_names_are_parsed() {
    assert_eq!(Note::from_name("E").unwrap().pitch_class, E);
    assert_eq!(Note::from_name("F#").unwrap().pitch_class, FSharp);
    let gb = Note::from_name("Gb").unwrap();
    assert_eq!(gb.pitch_class, FSharp);
    assert!(gb.flat);
    assert!(Note::from_name("H").is_none());
    assert!(Note::from_name("C##").is_none());
}

#[test]
fn fret_patterns_name_chords() {
    let p = FretPattern::parse("0003").unwrap();
    assert_eq!(p.frets, [0, 0, 0, 3]);
    let chords = Voicing::new(p.frets, Tuning::C).get_chords();
    assert_eq!(chords.len(), 1);
    assert_eq!(chords[0].root.pitch_class, C);
    assert_eq!(chords[0].chord_type, ChordType::Major);
    // G D F B: G7, from the G string; no other root names it.
    let g7 = Voicing::new([0, 2, 1, 2], Tuning::C).get_chords();
    assert_eq!(g7.len(), 1);
    assert_eq!(g7[0].root.pitch_class, G);
    assert_eq!(g7[0].chord_type, ChordType::DominantSeventh);
    // G F F B leaves out the fifth, so no chord type has exactly its intervals.
    assert!(Voicing::new([0, 5, 1, 2], Tuning::C).get_chords().is_empty());
    assert!(FretPattern::parse("22a0").is_none());
    assert!(FretPattern::parse("222").is_none());
    // G# C# F A#: C#6 from the C string, A#m7 from the A string.
    let both = Voicing::new([1, 1, 1, 1], Tuning::C).get_chords();
    assert_eq!(both.len(), 2);
    assert_eq!(both[0], Chord::from_name("C#6").unwrap());
    assert_eq!(both[1], Chord::from_name("A#m7").unwrap());
}

#[test]
fn semitone_steps_move_the_root() {
    let c = Chord::from_name("A#m").unwrap().add_semitones(3);
    assert_eq!(c.root.pitch_class, CSharp);
    assert_eq!(c.chord_type, ChordType::Minor);
    let d = Chord::from_name("Adim").unwrap().sub_semitones(3);
    assert_eq!(d.root.name(), "Gb");
    let same = Chord::from_name("Ab").unwrap().add_semitones(12);
    assert_eq!(same.root.pitch_class, GSharp);
}

#[test]
fn chords_parse_through_from_str() {
    let c: Chord = "Dbm".parse().unwrap();
    assert_eq!(c.root.name(), "Db");
    assert_eq!(c.chord_type, ChordType::Minor);
    let names: Vec<&str> = c.notes.iter().map(|n| n.name()).collect();
    // Notes are derived by adding semitones to the root, so they take sharps.
    assert_eq!(names, vec!["C#", "E", "G#"]);
    let aug7: Chord = "C7#5".parse().unwrap();
    assert_eq!(aug7.chord_type, ChordType::AugmentedSeventh);
    let add2: Chord = "Cadd2".parse().unwrap();
    assert_eq!(add2.chord_type, ChordType::AddedNinth);
    let e = "CmMaj".parse::<Chord>().unwrap_err();
    assert_eq!(e.name, "CmMaj");
}

#[test]
fn chord_notes_are_spelled_with_sharps() {
    let c = Chord::new(Note::from_pitch_class(F), ChordType::MajorEleventh);
    assert_eq!(c.notes.len(), 6);
    assert!(c.notes.iter().all(|n| !n.flat));
    assert!(c.notes.iter().any(|n| n.name() == "A#"));
    assert!(Chord::from_name("C13").unwrap().played_notes().iter().all(|n| !n.flat));
}

#[test]
fn semitone_operators_move_the_root() {
    let up = Chord::from_name("Cmaj7").unwrap() + 2;
    assert_eq!(up.root.pitch_class, D);
    assert_eq!(up.chord_type, ChordType::MajorSeventh);
    let down = Chord::from_name("Cmaj7").unwrap() - 2;
    assert_eq!(down.root.name(), "Bb");
}

#[test]
fn reverse_lookup_names_each_root_once() {
    // G C E C: the root C sounds on two strings.
    let chords = Voicing::new([0, 0, 0, 3], Tuning::C).get_chords();
    for i in 0..chords.len() {
        for j in i + 1..chords.len() {
            assert_ne!(chords[i].root.pitch_class, chords[j].root.pitch_class);
        }
    }
    assert_eq!(chords.len(), 1);
}

use ukebox::{Chord, ChordType, Note, PitchClass, Tuning, Voicing, VoicingConfig, VoicingGraph};

fn chord(root: PitchClass, chord_type: ChordType) -> Chord {
    Chord::new(Note::from_pitch_class(root), chord_type)
}

fn cost(path: &[Voicing]) -> u128 {
    path.windows(2).map(|w| w[0].distance(&w[1]) as u128).sum()
}

#[test]
fn distance_sums_fret_moves() {
    let a = Voicing::new([0, 0, 0, 3], Tuning::C);
    let b = Voicing::new([0, 2, 3, 2], Tuning::C);
    let c = Voicing::new([2, 2, 2, 0], Tuning::C);
    assert_eq!(a.distance(&a), 0);
    assert_eq!(a.distance(&b), 6);
    assert_eq!(b.distance(&a), 6);
    assert_eq!(b.distance(&c), 5);
    assert!(a.distance(&b) + b.distance(&c) >= a.distance(&c));
    assert_eq!(a.distance(&c), 9);
}

#[test]
fn c_to_g_takes_the_least_movement() {
    let cfg = VoicingConfig { tuning: Tuning::C, min_fret: 0, max_fret: 12, max_span: 4 };
    let c = chord(PitchClass::C, ChordType::Major);
    let g = chord(PitchClass::G, ChordType::Major);
    let mut graph = VoicingGraph::new(cfg);
    graph.add(&vec![c.clone(), g.clone()]).unwrap();
    let paths = graph.paths(1);
    assert_eq!(paths.len(), 1);
    let (path, total) = &paths[0];
    assert_eq!(path.len(), 2);
    assert!(c.spelled_out_by(&path[0]));
    assert!(g.spelled_out_by(&path[1]));
    assert_eq!(*total, cost(path));
    let mut best = u128::MAX;
    for a in c.voicings(cfg).unwrap() {
        for b in g.voicings(cfg).unwrap() {
            best = best.min(a.distance(&b) as u128);
        }
    }
    assert_eq!(*total, best);
}

#[test]
fn k_paths_are_sorted_and_bounded() {
    let cfg = VoicingConfig::default();
    let seq = vec![
        chord(PitchClass::C, ChordType::Major),
        chord(PitchClass::A, ChordType::Minor),
        chord(PitchClass::F, ChordType::Major),
        chord(PitchClass::G, ChordType::DominantSeventh),
    ];
    let mut graph = VoicingGraph::new(cfg);
    graph.add(&seq).unwrap();
    let paths = graph.paths(5);
    assert!(!paths.is_empty() && paths.len() <= 5);
    for w in paths.windows(2) {
        assert!(w[0].1 <= w[1].1);
    }
    for (path, total) in &paths {
        assert_eq!(path.len(), 4);
        assert_eq!(*total, cost(path));
    }
}

#[test]
fn single_chord_paths_cost_nothing() {
    let mut graph = VoicingGraph::new(VoicingConfig::default());
    graph.add(&vec![chord(PitchClass::F, ChordType::Major)]).unwrap();
    let paths = graph.paths(3);
    assert_eq!(paths.len(), 3);
    for (path, total) in &paths {
        assert_eq!(path.len(), 1);
        assert_eq!(*total, 0);
    }
}

#[test]
fn unplayable_chord_leaves_no_path() {
    let cfg = VoicingConfig { tuning: Tuning::C, min_fret: 5, max_fret: 5, max_span: 0 };
    let mut graph = VoicingGraph::new(cfg);
    graph
        .add(&vec![chord(PitchClass::F, ChordType::Major), chord(PitchClass::C, ChordType::Major)])
        .unwrap();
    assert!(graph.paths(3).is_empty());
}

#[test]
fn zero_paths_asked_gives_none() {
    let mut graph = VoicingGraph::new(VoicingConfig::default());
    graph.add(&vec![chord(PitchClass::C, ChordType::Major)]).unwrap();
    assert!(graph.paths(0).is_empty());
}

#[test]
fn graph_rejects_empty_fret_range() {
    let cfg = VoicingConfig { tuning: Tuning::C, min_fret: 9, max_fret: 2, max_span: 4 };
    let mut graph = VoicingGraph::new(cfg);
    assert!(graph.add(&vec![chord(PitchClass::C, ChordType::Major)]).is_err());
    assert!(graph.layers.is_empty());
}

#[test]
fn k_paths_are_the_cheapest_distinct_ones() {
    let cfg = VoicingConfig { tuning: Tuning::C, min_fret: 0, max_fret: 7, max_span: 3 };
    let c = chord(PitchClass::C, ChordType::Major);
    let a = chord(PitchClass::A, ChordType::Minor);
    let mut graph = VoicingGraph::new(cfg);
    graph.add(&vec![c.clone(), a.clone()]).unwrap();
    let k = 4;
    let paths = graph.paths(k);
    let mut all: Vec<u128> = Vec::new();
    for x in c.voicings(cfg).unwrap() {
        for y in a.voicings(cfg).unwrap() {
            all.push(x.distance(&y) as u128);
        }
    }
    all.sort();
    assert_eq!(paths.len(), k.min(all.len()));
    let got: Vec<u128> = paths.iter().map(|p| p.1).collect();
    assert_eq!(got, all[..paths.len()].to_vec());
    for i in 0..paths.len() {
        for j in i + 1..paths.len() {
            let fi: Vec<[u8; 4]> = paths[i].0.iter().map(|v| v.get_frets()).collect();
            let fj: Vec<[u8; 4]> = paths[j].0.iter().map(|v| v.get_frets()).collect();
            assert_ne!(fi, fj);
        }
    }
}

#[test]
fn equal_costs_follow_the_voicing_order_from_the_left() {
    let cfg = VoicingConfig { tuning: Tuning::C, min_fret: 0, max_fret: 9, max_span: 3 };
    let seq = vec![
        chord(PitchClass::C, ChordType::Major),
        chord(PitchClass::F, ChordType::Major),
        chord(PitchClass::G, ChordType::Major),
    ];
    let layers: Vec<Vec<Voicing>> = seq.iter().map(|c| c.voicings(cfg).unwrap()).collect();
    let mut all: Vec<(u128, Vec<usize>)> = Vec::new();
    for a in 0..layers[0].len() {
        for b in 0..layers[1].len() {
            for c in 0..layers[2].len() {
                let path = [layers[0][a], layers[1][b], layers[2][c]];
                all.push((cost(&path), vec![a, b, c]));
            }
        }
    }
    all.sort();
    let mut graph = VoicingGraph::new(cfg);
    graph.add(&seq).unwrap();
    let k = 12;
    let paths = graph.paths(k);
    assert_eq!(paths.len(), k);
    for (j, (path, total)) in paths.iter().enumerate() {
        let (want_cost, want_nodes) = &all[j];
        assert_eq!(total, want_cost);
        for (t, v) in path.iter().enumerate() {
            assert_eq!(v.get_frets(), layers[t][want_nodes[t]].get_frets());
        }
    }
}

use core_engine::voicing::Voicing;
use core_engine::voicing_ranker::{rank_voicings, score_voicing, RankingStrategy};

#[test]
fn test_score_voicing_open_strings_bonus() {
    let voicing_open = Voicing { frets: vec![Some(0), Some(2), None, None, None, None] };
    let voicing_closed = Voicing { frets: vec![Some(5), Some(7), Some(7), Some(5), Some(5), Some(5)] };
    assert!(score_voicing(&voicing_open) > score_voicing(&voicing_closed));
}

#[test]
fn test_all_open_voicing() {
    let voicing = Voicing { frets: vec![None, None, None, None, None, None] };
    assert_eq!(score_voicing(&voicing), 0);
}

#[test]
fn score_formula_values() {
    // stretch 2, four unplayed strings, lowest fret 0: -4 + 12 - 0
    assert_eq!(score_voicing(&Voicing { frets: vec![Some(0), Some(2), None, None, None, None] }), 8);
    // stretch 2, none unplayed, lowest fret 5: -4 + 0 - 2
    assert_eq!(score_voicing(&Voicing { frets: vec![Some(5), Some(7), Some(7), Some(5), Some(5), Some(5)] }), -6);
    // one fret 9: 0 stretch, two unplayed, -(9/2) = -4
    assert_eq!(score_voicing(&Voicing { frets: vec![None, Some(9), None] }), 2);
    assert_eq!(score_voicing(&Voicing { frets: vec![] }), 0);
}

fn v(frets: &[Option<u8>]) -> Voicing {
    Voicing { frets: frets.to_vec() }
}

#[test]
fn most_playable_orders_by_score_stably() {
    let input = vec![
        v(&[Some(5), Some(7), Some(7)]), // -4 - 2 = -6
        v(&[Some(0), Some(2), None]),    // -4 + 3 = -1
        v(&[Some(3), Some(5), Some(5)]), // -4 - 1 = -5
        v(&[Some(2), Some(0), None]),    // -1, after the other -1
    ];
    let ranked = rank_voicings(input, RankingStrategy::MostPlayable);
    let scores: Vec<i32> = ranked.iter().map(|e| e.score).collect();
    assert_eq!(scores, vec![-1, -1, -5, -6]);
    assert_eq!(ranked[0].voicing.frets, vec![Some(0), Some(2), None]);
    assert_eq!(ranked[1].voicing.frets, vec![Some(2), Some(0), None]);
}

#[test]
fn lowest_position_orders_by_lowest_fret_then_score() {
    let input = vec![
        v(&[Some(5), Some(7), Some(7)]), // low 5, score -6
        v(&[Some(0), Some(4), None]),    // low 0, score -5
        v(&[Some(3), Some(5), Some(5)]), // low 3, score -5
        v(&[Some(0), Some(1), None]),    // low 0, score 1
        v(&[None, None, None]),          // low 0 (nothing played), score 0
    ];
    let ranked = rank_voicings(input, RankingStrategy::LowestPosition);
    let frets: Vec<Vec<Option<u8>>> = ranked.iter().map(|e| e.voicing.frets.clone()).collect();
    assert_eq!(
        frets,
        vec![
            vec![Some(0), Some(1), None],
            vec![None, None, None],
            vec![Some(0), Some(4), None],
            vec![Some(3), Some(5), Some(5)],
            vec![Some(5), Some(7), Some(7)],
        ]
    );
    assert!(rank_voicings(vec![], RankingStrategy::LowestPosition).is_empty());
}

#[test]
fn ranked_entries_compare_and_clone() {
    let ranked = rank_voicings(vec![v(&[Some(0), Some(2), None])], RankingStrategy::MostPlayable);
    let copy = ranked[0].clone();
    assert_eq!(copy, ranked[0]);
    assert_eq!(copy.score, score_voicing(&copy.voicing));
}

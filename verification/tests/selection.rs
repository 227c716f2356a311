use chess_nn::selection::{last_nn_to_renew, mix_selection_plan, nn_selection_plan};

use chess_nn::selection::SelectionStep::{CloneAndEvolve, Evolve, Keep, NewRandom};

#[test]
fn nn_selection_examples() {
    let is_nn = [false, true, true, false, true, true, true];
    // position 2: second network, copy of position 0 (not a network): coin decides
    let plan = nn_selection_plan(&is_nn, 2, &[false; 7]);
    assert_eq!(plan, vec![Keep, Keep, CloneAndEvolve(1), Keep, CloneAndEvolve(2), CloneAndEvolve(1), CloneAndEvolve(4)]);
    let plan = nn_selection_plan(&is_nn, 2, &[true; 7]);
    assert_eq!(plan, vec![Keep, Keep, NewRandom, Keep, CloneAndEvolve(2), NewRandom, CloneAndEvolve(4)]);
    // keep 0: every network is mutated in place
    let plan = nn_selection_plan(&[true, false, true], 0, &[false; 3]);
    assert_eq!(plan, vec![CloneAndEvolve(0), Keep, CloneAndEvolve(2)]);
    // a large keep keeps everyone
    let plan = nn_selection_plan(&[true, false, true], 5, &[false; 3]);
    assert_eq!(plan, vec![Keep, Keep, Keep]);
}

#[test]
fn last_network_renewed() {
    assert_eq!(last_nn_to_renew(&[true, false, true, false], 1), Some(2));
    assert_eq!(last_nn_to_renew(&[true, false, true, false], 3), None);
    assert_eq!(last_nn_to_renew(&[true, true], 0), Some(1));
    assert_eq!(last_nn_to_renew(&[], 0), None);
}

#[test]
fn mix_selection_examples() {
    let is_kind = [false, true, true, false, true];
    let below = [true, false, true, true, false];
    let plan = mix_selection_plan(&is_kind, &below, &[false; 5]);
    assert_eq!(plan, vec![Keep, Keep, CloneAndEvolve(1), Keep, Evolve]);
    let plan = mix_selection_plan(&is_kind, &below, &[true; 5]);
    assert_eq!(plan, vec![Keep, Keep, NewRandom, Keep, Evolve]);
}

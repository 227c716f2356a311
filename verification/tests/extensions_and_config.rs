use chess_nn::config::{bool_answer, parse_u32, ComputeUnit, Task};
use chess_nn::extensions::{Extended, IndexOfMaxMin, Pushed};

#[test]
fn index_of_max_and_min_of_integers() {
    let v: &[i64] = &[3, 7, -2, 7, -2, 5];
    assert_eq!(v.index_of_max(), Some(1));
    assert_eq!(v.index_of_min(), Some(2));
    let empty: &[i64] = &[];
    assert_eq!(empty.index_of_max(), None);
    assert_eq!(empty.index_of_min(), None);
    let one: &[u8] = &[9];
    assert_eq!(one.index_of_max(), Some(0));
    assert_eq!(one.index_of_min(), Some(0));
}

#[test]
fn index_of_max_of_floats_skips_incomparable_values() {
    let v: &[f32] = &[0.5, f32::NAN, 2.0, -1.0];
    assert_eq!(v.index_of_max(), Some(2));
    assert_eq!(v.index_of_min(), Some(3));
    let w: &[f32] = &[f32::NAN, 1.0, 3.0];
    assert_eq!(w.index_of_max(), Some(0));
}

#[test]
fn pushed_and_extended() {
    assert_eq!(vec![1, 2].pushed(3), vec![1, 2, 3]);
    assert_eq!(vec![1, 2].extended(vec![3, 4]), vec![1, 2, 3, 4]);
    assert_eq!(Vec::<u8>::new().extended(vec![]), Vec::<u8>::new());
}

#[test]
fn yes_no_answers() {
    assert_eq!(bool_answer("", true), Some(true));
    assert_eq!(bool_answer("", false), Some(false));
    assert_eq!(bool_answer("y", false), Some(true));
    assert_eq!(bool_answer("yes", false), Some(true));
    assert_eq!(bool_answer("n", true), Some(false));
    assert_eq!(bool_answer("no", true), Some(false));
    assert_eq!(bool_answer("Yes", true), None);
    assert_eq!(bool_answer("maybe", true), None);
}

#[test]
fn task_answers() {
    assert_eq!(Task::from_answer(""), Some(Task::Train));
    assert_eq!(Task::from_answer("t"), Some(Task::Train));
    assert_eq!(Task::from_answer("inspect"), Some(Task::Inspect));
    assert_eq!(Task::from_answer("p"), Some(Task::Play));
    assert_eq!(Task::from_answer("x"), None);
}

#[test]
fn compute_unit_answers() {
    assert_eq!(ComputeUnit::from_answer(""), Some(ComputeUnit::CpuAll));
    assert_eq!(ComputeUnit::from_answer("cpu1"), Some(ComputeUnit::CpuOne));
    assert_eq!(ComputeUnit::from_answer("cpuone"), Some(ComputeUnit::CpuOne));
    assert_eq!(ComputeUnit::from_answer("cpuall"), Some(ComputeUnit::CpuAll));
    assert_eq!(ComputeUnit::from_answer("gpu"), Some(ComputeUnit::Gpu));
    assert_eq!(ComputeUnit::from_answer("cpu8"), Some(ComputeUnit::CpuN(8)));
    assert_eq!(ComputeUnit::from_answer("cpu+12"), Some(ComputeUnit::CpuN(12)));
    assert_eq!(ComputeUnit::from_answer("cpu"), None);
    assert_eq!(ComputeUnit::from_answer("cpux"), None);
    assert_eq!(ComputeUnit::from_answer("cpu99999999999"), None);
    assert_eq!(ComputeUnit::from_answer("tpu"), None);
}

#[test]
fn decimal_numbers() {
    assert_eq!(parse_u32("0"), Some(0));
    assert_eq!(parse_u32("4294967295"), Some(u32::MAX));
    assert_eq!(parse_u32("4294967296"), None);
    assert_eq!(parse_u32("+7"), Some(7));
    assert_eq!(parse_u32("+"), None);
    assert_eq!(parse_u32(""), None);
    assert_eq!(parse_u32("-1"), None);
    assert_eq!(parse_u32("12a"), None);
    for s in ["0", "42", "+42", "007", "4294967295", "4294967296", "", "+", "-0", " 1"] {
        assert_eq!(parse_u32(s), s.parse::<u32>().ok());
    }
}

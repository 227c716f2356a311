//! Reading the answers typed at the trainer's configuration prompts: yes/no
//! questions, the task, and the compute unit. An empty answer takes the
//! prompt's default; an answer that is not understood is `None` (ask again).

use vstd::prelude::*;

verus! {

/// Whether `s` and `t` hold the same characters.
fn str_equals(s: &str, t: &str) -> (r: bool)
    ensures
        r == (s@ == t@),
{
    let n = s.unicode_len();
    if n != t.unicode_len() {
        return false;
    }
    let mut i: usize = 0;
    while i < n
        invariant
            n == s@.len(),
            n == t@.len(),
            i <= n,
            forall|j: int| 0 <= j < i ==> s@[j] == t@[j],
        decreases n - i,
    {
        if s.get_char(i) != t.get_char(i) {
            return false;
        }
        i = i + 1;
    }
    proof {
        assert(s@ =~= t@);
    }
    true
}

/// Whether `s` is a non-empty string of decimal digits.
pub open spec fn is_decimal(s: Seq<char>) -> bool {
    s.len() > 0 && forall|i: int| 0 <= i < s.len() ==> '0' <= #[trigger] s[i] <= '9'
}

/// The number written in decimal by the digits `s`.
pub open spec fn decimal_value(s: Seq<char>) -> int
    decreases s.len(),
{
    if s.len() == 0 {
        0
    } else {
        decimal_value(s.drop_last()) * 10 + (s.last() as int - '0' as int)
    }
}

/// The `u32` that `s` writes in decimal, with an optional leading `+`, as the
/// standard library's `u32::from_str` reads it; `None` when `s` is not such a
/// number or the number exceeds `u32::MAX`.
pub open spec fn spec_parse_u32(s: Seq<char>) -> Option<u32> {
    let d = if s.len() > 0 && s[0] == '+' { s.drop_first() } else { s };
    if is_decimal(d) && decimal_value(d) <= u32::MAX {
        Some(decimal_value(d) as u32)
    } else {
        None
    }
}

proof fn lemma_decimal_value_nonneg(s: Seq<char>)
    requires
        forall|i: int| 0 <= i < s.len() ==> '0' <= #[trigger] s[i] <= '9',
    ensures
        decimal_value(s) >= 0,
    decreases s.len(),
{
    if s.len() > 0 {
        lemma_decimal_value_nonneg(s.drop_last());
    }
}

/// Reads a decimal `u32` (see `spec_parse_u32`).
pub fn parse_u32(s: &str) -> (r: Option<u32>)
    ensures
        r == spec_parse_u32(s@),
{
    let n = s.unicode_len();
    let mut start: usize = 0;
    if n > 0 && s.get_char(0) == '+' {
        start = 1;
    }
    let ghost d = if s@.len() > 0 && s@[0] == '+' { s@.drop_first() } else { s@ };
    proof {
        assert(d =~= s@.subrange(start as int, n as int));
    }
    if start == n {
        return None;
    }
    let mut value: u64 = 0;
    let mut i: usize = start;
    while i < n
        invariant
            n == s@.len(),
            start <= i <= n,
            start < n,
            d == s@.subrange(start as int, n as int),
            d == (if s@.len() > 0 && s@[0] == '+' { s@.drop_first() } else { s@ }),
            value <= u32::MAX,
            forall|j: int| start <= j < i ==> '0' <= #[trigger] s@[j] <= '9',
            value == decimal_value(s@.subrange(start as int, i as int)),
        decreases n - i,
    {
        let c = s.get_char(i);
        proof {
            assert(s@.subrange(start as int, i + 1).drop_last() =~= s@.subrange(start as int, i as int));
        }
        if c < '0' || c > '9' {
            proof {
                assert(d[i - start] == c);
                assert(!('0' <= d[i - start] <= '9'));
                assert(!is_decimal(d));
            }
            return None;
        }
        let digit = (c as u32 - '0' as u32) as u64;
        let next = value * 10 + digit;
        if next > u32::MAX as u64 {
            proof {
                let pre = s@.subrange(start as int, i + 1);
                assert(pre.drop_last() =~= s@.subrange(start as int, i as int));
                assert(pre.last() == c);
                assert(decimal_value(pre) == next);
                assert(d.subrange(0, i + 1 - start) =~= pre);
                if is_decimal(d) {
                    lemma_decimal_prefix_grows(d, (i + 1 - start) as nat);
                }
            }
            return None;
        }
        value = next;
        i = i + 1;
    }
    proof {
        assert(d =~= s@.subrange(start as int, i as int));
    }
    Some(value as u32)
}

proof fn lemma_decimal_prefix_grows(s: Seq<char>, k: nat)
    requires
        is_decimal(s),
        k <= s.len(),
    ensures
        decimal_value(s.subrange(0, k as int)) <= decimal_value(s),
    decreases s.len() - k,
{
    if k < s.len() {
        lemma_decimal_prefix_grows(s, (k + 1) as nat);
        assert(s.subrange(0, (k + 1) as int).drop_last() =~= s.subrange(0, k as int));
        lemma_decimal_value_nonneg(s.subrange(0, k as int));
    } else {
        assert(s.subrange(0, k as int) =~= s);
    }
}

/// The answer to a yes/no question: empty takes `default`, `y` or `yes` is
/// yes, `n` or `no` is no, anything else is not understood.
pub open spec fn spec_bool_answer(input: Seq<char>, default: bool) -> Option<bool> {
    if input.len() == 0 {
        Some(default)
    } else if input == "y"@ || input == "yes"@ {
        Some(true)
    } else if input == "n"@ || input == "no"@ {
        Some(false)
    } else {
        None
    }
}

/// Reads the answer to a yes/no question (see `spec_bool_answer`).
pub fn bool_answer(input: &str, default: bool) -> (r: Option<bool>)
    ensures
        r == spec_bool_answer(input@, default),
{
    if input.unicode_len() == 0 {
        Some(default)
    } else if str_equals(input, "y") || str_equals(input, "yes") {
        Some(true)
    } else if str_equals(input, "n") || str_equals(input, "no") {
        Some(false)
    } else {
        None
    }
}

/// What the trainer is asked to do.
#[derive(Debug, Clone, Copy, PartialEq, Eq, Structural)]
pub enum Task {
    Train,
    Inspect,
    Play,
}

/// The task named by an answer: empty takes the default, training; `t` or
/// `train`, `i` or `inspect`, `p` or `play`; anything else is not understood.
pub open spec fn spec_task_answer(input: Seq<char>) -> Option<Task> {
    if input.len() == 0 || input == "t"@ || input == "train"@ {
        Some(Task::Train)
    } else if input == "i"@ || input == "inspect"@ {
        Some(Task::Inspect)
    } else if input == "p"@ || input == "play"@ {
        Some(Task::Play)
    } else {
        None
    }
}

impl Task {
    /// Reads the task named by an answer (see `spec_task_answer`).
    pub fn from_answer(input: &str) -> (r: Option<Task>)
        ensures
            r == spec_task_answer(input@),
    {
        if input.unicode_len() == 0 || str_equals(input, "t") || str_equals(input, "train") {
            Some(Task::Train)
        } else if str_equals(input, "i") || str_equals(input, "inspect") {
            Some(Task::Inspect)
        } else if str_equals(input, "p") || str_equals(input, "play") {
            Some(Task::Play)
        } else {
            None
        }
    }
}

/// Where the games of a tournament are computed.
#[derive(Debug, Clone, Copy, PartialEq, Eq, Structural)]
pub enum ComputeUnit {
    CpuOne,
    CpuN(u32),
    CpuAll,
    Gpu,
}

/// The compute unit named by an answer: empty takes the default, all CPUs;
/// `cpu1` or `cpuone`, `cpuall`, `gpu`, or `cpu` followed by a decimal
/// `u32` n for n CPUs; anything else is not understood.
pub open spec fn spec_compute_unit_answer(input: Seq<char>) -> Option<ComputeUnit> {
    if input == "cpu1"@ || input == "cpuone"@ {
        Some(ComputeUnit::CpuOne)
    } else if input.len() == 0 || input == "cpuall"@ {
        Some(ComputeUnit::CpuAll)
    } else if input == "gpu"@ {
        Some(ComputeUnit::Gpu)
    } else if input.len() >= 3 && input.subrange(0, 3) == "cpu"@ {
        match spec_parse_u32(input.skip(3)) {
            Some(n) => Some(ComputeUnit::CpuN(n)),
            None => None,
        }
    } else {
        None
    }
}

impl ComputeUnit {
    /// Reads the compute unit named by an answer (see `spec_compute_unit_answer`).
    pub fn from_answer(input: &str) -> (r: Option<ComputeUnit>)
        ensures
            r == spec_compute_unit_answer(input@),
    {
        let n = input.unicode_len();
        if str_equals(input, "cpu1") || str_equals(input, "cpuone") {
            Some(ComputeUnit::CpuOne)
        } else if n == 0 || str_equals(input, "cpuall") {
            Some(ComputeUnit::CpuAll)
        } else if str_equals(input, "gpu") {
            Some(ComputeUnit::Gpu)
        } else if n >= 3 && str_equals(input.substring_char(0, 3), "cpu") {
            let rest = input.substring_char(3, n);
            proof {
                assert(rest@ =~= input@.skip(3));
            }
            match parse_u32(rest) {
                Some(k) => Some(ComputeUnit::CpuN(k)),
                None => None,
            }
        } else {
            None
        }
    }
}

} // verus!

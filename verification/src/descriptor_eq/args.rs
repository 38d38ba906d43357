//! The command line of the descriptor comparison: an owner side and a
//! control side, each an include root and a root `.proto` file within it.

use vstd::prelude::*;
use crate::descriptor_eq::text::same_text;

verus! {

/// One side of the comparison: an include root and a `.proto` file named
/// relative to it.
#[derive(Debug)]
pub struct Side {
    pub root: String,
    pub file: String,
}

/// Why the command line was refused.
#[derive(Debug)]
pub enum ArgError {
    /// This option was the last word, with no value after it.
    MissingValue(String),
    /// This word is not an option of the comparison.
    UnknownArgument(String),
    MissingOwnerRoot,
    MissingOwnerFile,
    MissingControlRoot,
    MissingControlFile,
}

/// The mathematical model of an [`ArgError`].
pub enum ArgFault {
    MissingValue(Seq<char>),
    UnknownArgument(Seq<char>),
    MissingOwnerRoot,
    MissingOwnerFile,
    MissingControlRoot,
    MissingControlFile,
}

impl View for ArgError {
    type V = ArgFault;

    open spec fn view(&self) -> ArgFault {
        match self {
            ArgError::MissingValue(a) => ArgFault::MissingValue(a@),
            ArgError::UnknownArgument(a) => ArgFault::UnknownArgument(a@),
            ArgError::MissingOwnerRoot => ArgFault::MissingOwnerRoot,
            ArgError::MissingOwnerFile => ArgFault::MissingOwnerFile,
            ArgError::MissingControlRoot => ArgFault::MissingControlRoot,
            ArgError::MissingControlFile => ArgFault::MissingControlFile,
        }
    }
}

/// The values given so far for the four options.
pub struct ArgSlots {
    pub owner_root: Option<Seq<char>>,
    pub owner_file: Option<Seq<char>>,
    pub control_root: Option<Seq<char>>,
    pub control_file: Option<Seq<char>>,
}

/// No option given yet.
pub open spec fn no_slots() -> ArgSlots {
    ArgSlots { owner_root: None, owner_file: None, control_root: None, control_file: None }
}

/// Reads the words from index `i` on as option/value pairs; a later value
/// of an option replaces an earlier one.
pub open spec fn scan_args(args: Seq<Seq<char>>, i: int, slots: ArgSlots) -> Result<ArgSlots, ArgFault>
    decreases args.len() - i,
{
    if i < 0 || i >= args.len() {
        Ok(slots)
    } else if i + 1 >= args.len() {
        Err(ArgFault::MissingValue(args[i]))
    } else {
        let v = Some(args[i + 1]);
        if args[i] == "--owner-root"@ {
            scan_args(
                args,
                i + 2,
                ArgSlots { owner_root: v, owner_file: slots.owner_file, control_root: slots.control_root, control_file: slots.control_file },
            )
        } else if args[i] == "--owner-file"@ {
            scan_args(
                args,
                i + 2,
                ArgSlots { owner_root: slots.owner_root, owner_file: v, control_root: slots.control_root, control_file: slots.control_file },
            )
        } else if args[i] == "--control-root"@ {
            scan_args(
                args,
                i + 2,
                ArgSlots { owner_root: slots.owner_root, owner_file: slots.owner_file, control_root: v, control_file: slots.control_file },
            )
        } else if args[i] == "--control-file"@ {
            scan_args(
                args,
                i + 2,
                ArgSlots { owner_root: slots.owner_root, owner_file: slots.owner_file, control_root: slots.control_root, control_file: v },
            )
        } else {
            Err(ArgFault::UnknownArgument(args[i]))
        }
    }
}

/// The two sides named by the command line `args` (the words after the
/// program name), as (root, file) pairs for the owner and the control side.
pub open spec fn parsed_args(args: Seq<Seq<char>>) -> Result<
    ((Seq<char>, Seq<char>), (Seq<char>, Seq<char>)),
    ArgFault,
> {
    match scan_args(args, 0, no_slots()) {
        Err(fault) => Err(fault),
        Ok(s) => if s.owner_root is None {
            Err(ArgFault::MissingOwnerRoot)
        } else if s.owner_file is None {
            Err(ArgFault::MissingOwnerFile)
        } else if s.control_root is None {
            Err(ArgFault::MissingControlRoot)
        } else if s.control_file is None {
            Err(ArgFault::MissingControlFile)
        } else {
            Ok(((s.owner_root->0, s.owner_file->0), (s.control_root->0, s.control_file->0)))
        },
    }
}

/// Reads the comparison's command line: `--owner-root`, `--owner-file`,
/// `--control-root` and `--control-file`, each followed by its value, in any
/// order, all four required. `args` are the words after the program name.
pub fn parse_args(args: &Vec<String>) -> (r: Result<(Side, Side), ArgError>)
    ensures
        match parsed_args(args.deep_view()) {
            Ok((owner, control)) => r matches Ok((o, c)) && o.root@ == owner.0 && o.file@
                == owner.1 && c.root@ == control.0 && c.file@ == control.1,
            Err(fault) => r matches Err(e) && e@ == fault,
        },
{
    let ghost words = args.deep_view();
    let mut owner_root: Option<String> = None;
    let mut owner_file: Option<String> = None;
    let mut control_root: Option<String> = None;
    let mut control_file: Option<String> = None;
    let mut i: usize = 0;
    while i < args.len()
        invariant
            words == args.deep_view(),
            i <= args@.len(),
            scan_args(words, 0, no_slots()) == scan_args(
                words,
                i as int,
                ArgSlots {
                    owner_root: owner_root.deep_view(),
                    owner_file: owner_file.deep_view(),
                    control_root: control_root.deep_view(),
                    control_file: control_file.deep_view(),
                },
            ),
        decreases args@.len() - i,
    {
        let arg = &args[i];
        assert(words[i as int] == arg@);
        if i + 1 >= args.len() {
            return Err(ArgError::MissingValue(arg.clone()));
        }
        let value = args[i + 1].clone();
        assert(words[i + 1] == value@);
        if same_text(arg.as_str(), "--owner-root") {
            owner_root = Some(value);
        } else if same_text(arg.as_str(), "--owner-file") {
            owner_file = Some(value);
        } else if same_text(arg.as_str(), "--control-root") {
            control_root = Some(value);
        } else if same_text(arg.as_str(), "--control-file") {
            control_file = Some(value);
        } else {
            return Err(ArgError::UnknownArgument(arg.clone()));
        }
        i = i + 2;
    }
    let owner_root = match owner_root {
        Some(v) => v,
        None => return Err(ArgError::MissingOwnerRoot),
    };
    let owner_file = match owner_file {
        Some(v) => v,
        None => return Err(ArgError::MissingOwnerFile),
    };
    let control_root = match control_root {
        Some(v) => v,
        None => return Err(ArgError::MissingControlRoot),
    };
    let control_file = match control_file {
        Some(v) => v,
        None => return Err(ArgError::MissingControlFile),
    };
    Ok((Side { root: owner_root, file: owner_file }, Side { root: control_root, file: control_file }))
}

/// Whether `word` names one of the four options.
pub open spec fn is_option(word: Seq<char>) -> bool {
    ||| word == "--owner-root"@
    ||| word == "--owner-file"@
    ||| word == "--control-root"@
    ||| word == "--control-file"@
}

/// Reading from index `i` on depends only on the words from `i` on.
proof fn lemma_scan_suffix(a: Seq<Seq<char>>, b: Seq<Seq<char>>, i: int, slots: ArgSlots)
    requires
        0 <= i <= a.len(),
        a.len() == b.len(),
        forall|k: int| i <= k < a.len() ==> a[k] == b[k],
    ensures
        scan_args(a, i, slots) == scan_args(b, i, slots),
    decreases a.len() - i,
{
    if i + 2 <= a.len() {
        assert(a[i] == b[i] && a[i + 1] == b[i + 1]);
        let v = Some(a[i + 1]);
        lemma_scan_suffix(
            a,
            b,
            i + 2,
            ArgSlots { owner_root: v, owner_file: slots.owner_file, control_root: slots.control_root, control_file: slots.control_file },
        );
        lemma_scan_suffix(
            a,
            b,
            i + 2,
            ArgSlots { owner_root: slots.owner_root, owner_file: v, control_root: slots.control_root, control_file: slots.control_file },
        );
        lemma_scan_suffix(
            a,
            b,
            i + 2,
            ArgSlots { owner_root: slots.owner_root, owner_file: slots.owner_file, control_root: v, control_file: slots.control_file },
        );
        lemma_scan_suffix(
            a,
            b,
            i + 2,
            ArgSlots { owner_root: slots.owner_root, owner_file: slots.owner_file, control_root: slots.control_root, control_file: v },
        );
    } else if i + 1 == a.len() {
        assert(a[i] == b[i]);
    }
}

/// Reading the same prefix of even length from the start gives the same
/// result whatever follows, once both continuations agree from the end of
/// the prefix on.
proof fn lemma_scan_swap_from(
    a: Seq<Seq<char>>,
    b: Seq<Seq<char>>,
    p: int,
    i: int,
    slots: ArgSlots,
)
    requires
        0 <= i <= p,
        p + 4 <= a.len(),
        a.len() == b.len(),
        i % 2 == 0,
        p % 2 == 0,
        forall|k: int| 0 <= k < p ==> a[k] == b[k],
        forall|k: int| p + 4 <= k < a.len() ==> a[k] == b[k],
        is_option(a[p]),
        is_option(a[p + 2]),
        a[p] != a[p + 2],
        b[p] == a[p + 2],
        b[p + 1] == a[p + 3],
        b[p + 2] == a[p],
        b[p + 3] == a[p + 1],
    ensures
        scan_args(a, i, slots) == scan_args(b, i, slots),
    decreases p - i,
{
    if i < p {
        assert(a[i] == b[i] && a[i + 1] == b[i + 1]);
        let v = Some(a[i + 1]);
        lemma_scan_swap_from(a, b, p, i + 2,
            ArgSlots { owner_root: v, owner_file: slots.owner_file, control_root: slots.control_root, control_file: slots.control_file });
        lemma_scan_swap_from(a, b, p, i + 2,
            ArgSlots { owner_root: slots.owner_root, owner_file: v, control_root: slots.control_root, control_file: slots.control_file });
        lemma_scan_swap_from(a, b, p, i + 2,
            ArgSlots { owner_root: slots.owner_root, owner_file: slots.owner_file, control_root: v, control_file: slots.control_file });
        lemma_scan_swap_from(a, b, p, i + 2,
            ArgSlots { owner_root: slots.owner_root, owner_file: slots.owner_file, control_root: slots.control_root, control_file: v });
    } else {
        // i == p: both read the two swapped pairs and reach p + 4 with the
        // same values, since the two options differ.
        let after_a = scan_two(a, p, slots);
        let after_b = scan_two(b, p, slots);
        assert(after_a == after_b);
        assert(scan_args(a, p, slots) == scan_args(a, p + 2, scan_one(a, p, slots)));
        assert(scan_args(a, p + 2, scan_one(a, p, slots)) == scan_args(a, p + 4, after_a));
        assert(scan_args(b, p, slots) == scan_args(b, p + 2, scan_one(b, p, slots)));
        assert(scan_args(b, p + 2, scan_one(b, p, slots)) == scan_args(b, p + 4, after_b));
        lemma_scan_suffix(a, b, p + 4, after_a);
    }
}

/// The values after reading the option/value pair at `i` into `slots`.
spec fn scan_one(args: Seq<Seq<char>>, i: int, slots: ArgSlots) -> ArgSlots {
    let v = Some(args[i + 1]);
    if args[i] == "--owner-root"@ {
        ArgSlots { owner_root: v, owner_file: slots.owner_file, control_root: slots.control_root, control_file: slots.control_file }
    } else if args[i] == "--owner-file"@ {
        ArgSlots { owner_root: slots.owner_root, owner_file: v, control_root: slots.control_root, control_file: slots.control_file }
    } else if args[i] == "--control-root"@ {
        ArgSlots { owner_root: slots.owner_root, owner_file: slots.owner_file, control_root: v, control_file: slots.control_file }
    } else {
        ArgSlots { owner_root: slots.owner_root, owner_file: slots.owner_file, control_root: slots.control_root, control_file: v }
    }
}

/// The values after reading the two pairs at `i` and `i + 2`.
spec fn scan_two(args: Seq<Seq<char>>, i: int, slots: ArgSlots) -> ArgSlots {
    scan_one(args, i + 2, scan_one(args, i, slots))
}

/// Options may come in any order: swapping two neighbouring option/value
/// pairs that set different options does not change what the command line
/// says.
pub proof fn lemma_option_order_irrelevant(
    before: Seq<Seq<char>>,
    first: (Seq<char>, Seq<char>),
    second: (Seq<char>, Seq<char>),
    after: Seq<Seq<char>>,
)
    requires
        before.len() % 2 == 0,
        is_option(first.0),
        is_option(second.0),
        first.0 != second.0,
    ensures
        parsed_args(before + seq![first.0, first.1, second.0, second.1] + after) == parsed_args(
            before + seq![second.0, second.1, first.0, first.1] + after,
        ),
{
    let a = before + seq![first.0, first.1, second.0, second.1] + after;
    let b = before + seq![second.0, second.1, first.0, first.1] + after;
    let p = before.len() as int;
    assert forall|k: int| 0 <= k < p implies a[k] == b[k] by {
        assert(a[k] == before[k]);
        assert(b[k] == before[k]);
    }
    assert forall|k: int| p + 4 <= k < a.len() implies a[k] == b[k] by {
        assert(a[k] == after[k - p - 4]);
        assert(b[k] == after[k - p - 4]);
    }
    lemma_scan_swap_from(a, b, p, 0, no_slots());
}

/// The pair at even index `k` is well formed: an option followed by a value.
pub open spec fn good_pair(args: Seq<Seq<char>>, k: int) -> bool {
    k + 1 < args.len() && is_option(args[k])
}

/// What a bad pair at `k` is refused for: a last word with no value after
/// it, or a word that is not an option.
pub open spec fn pair_fault(args: Seq<Seq<char>>, k: int) -> ArgFault {
    if k + 1 >= args.len() {
        ArgFault::MissingValue(args[k])
    } else {
        ArgFault::UnknownArgument(args[k])
    }
}

/// The words pair up into options, each followed by its value.
pub open spec fn well_paired(args: Seq<Seq<char>>) -> bool {
    forall|k: int| 0 <= k < args.len() && k % 2 == 0 ==> #[trigger] good_pair(args, k)
}

/// Some pair sets `opt`.
pub open spec fn option_given(args: Seq<Seq<char>>, opt: Seq<char>) -> bool {
    exists|k: int| 0 <= k < args.len() && k % 2 == 0 && #[trigger] args[k] == opt
}

/// `v` is the value of the last pair that sets `opt`.
pub open spec fn is_last_value(args: Seq<Seq<char>>, opt: Seq<char>, v: Seq<char>) -> bool {
    exists|k: int|
        0 <= k && k + 1 < args.len() && k % 2 == 0 && #[trigger] args[k] == opt && args[k + 1] == v
            && forall|j: int| k < j < args.len() && j % 2 == 0 ==> #[trigger] args[j] != opt
}

/// The value of the last pair before even index `i` that sets `opt`.
spec fn value_before(args: Seq<Seq<char>>, opt: Seq<char>, i: int) -> Option<Seq<char>>
    decreases i,
{
    if i < 2 {
        None
    } else if args[i - 2] == opt {
        Some(args[i - 1])
    } else {
        value_before(args, opt, i - 2)
    }
}

/// The values `slots` holds are those that the pairs before `i` set.
spec fn slots_agree(args: Seq<Seq<char>>, slots: ArgSlots, i: int) -> bool {
    &&& slots.owner_root == value_before(args, "--owner-root"@, i)
    &&& slots.owner_file == value_before(args, "--owner-file"@, i)
    &&& slots.control_root == value_before(args, "--control-root"@, i)
    &&& slots.control_file == value_before(args, "--control-file"@, i)
}

/// The four option names differ.
proof fn lemma_options_distinct()
    ensures
        "--owner-root"@ != "--owner-file"@,
        "--owner-root"@ != "--control-root"@,
        "--owner-root"@ != "--control-file"@,
        "--owner-file"@ != "--control-root"@,
        "--owner-file"@ != "--control-file"@,
        "--control-root"@ != "--control-file"@,
{
    reveal_strlit("--owner-root");
    reveal_strlit("--owner-file");
    reveal_strlit("--control-root");
    reveal_strlit("--control-file");
    assert("--owner-root"@[8] != "--owner-file"@[8]);
    assert("--owner-root"@[2] != "--control-root"@[2]);
    assert("--owner-root"@[2] != "--control-file"@[2]);
    assert("--owner-file"@[2] != "--control-root"@[2]);
    assert("--owner-file"@[2] != "--control-file"@[2]);
    assert("--control-root"@[10] != "--control-file"@[10]);
}

/// Reading well-formed pairs from `i` on succeeds, with the values of the
/// last pair that sets each option.
proof fn lemma_scan_well_paired(args: Seq<Seq<char>>, i: int, slots: ArgSlots)
    requires
        0 <= i <= args.len(),
        i % 2 == 0,
        forall|k: int| i <= k < args.len() && k % 2 == 0 ==> #[trigger] good_pair(args, k),
        slots_agree(args, slots, i),
    ensures
        scan_args(args, i, slots) matches Ok(t) && slots_agree(args, t, args.len() as int),
    decreases args.len() - i,
{
    if i < args.len() {
        assert(good_pair(args, i));
        lemma_options_distinct();
        let v = Some(args[i + 1]);
        let next = if args[i] == "--owner-root"@ {
            ArgSlots { owner_root: v, owner_file: slots.owner_file, control_root: slots.control_root, control_file: slots.control_file }
        } else if args[i] == "--owner-file"@ {
            ArgSlots { owner_root: slots.owner_root, owner_file: v, control_root: slots.control_root, control_file: slots.control_file }
        } else if args[i] == "--control-root"@ {
            ArgSlots { owner_root: slots.owner_root, owner_file: slots.owner_file, control_root: v, control_file: slots.control_file }
        } else {
            ArgSlots { owner_root: slots.owner_root, owner_file: slots.owner_file, control_root: slots.control_root, control_file: v }
        };
        assert(scan_args(args, i, slots) == scan_args(args, i + 2, next));
        assert(slots_agree(args, next, i + 2));
        lemma_scan_well_paired(args, i + 2, next);
    } else {
        assert(i == args.len());
    }
}

/// Reading from `i` on, with good pairs up to the bad pair at `k`, is refused
/// for that pair.
proof fn lemma_scan_bad_pair(args: Seq<Seq<char>>, i: int, slots: ArgSlots, k: int)
    requires
        0 <= i <= k < args.len(),
        i % 2 == 0,
        k % 2 == 0,
        !good_pair(args, k),
        forall|j: int| i <= j < k && j % 2 == 0 ==> #[trigger] good_pair(args, j),
    ensures
        scan_args(args, i, slots) == Err::<ArgSlots, ArgFault>(pair_fault(args, k)),
    decreases k - i,
{
    if i < k {
        assert(good_pair(args, i));
        let v = Some(args[i + 1]);
        lemma_scan_bad_pair(args, i + 2, ArgSlots { owner_root: v, owner_file: slots.owner_file, control_root: slots.control_root, control_file: slots.control_file }, k);
        lemma_scan_bad_pair(args, i + 2, ArgSlots { owner_root: slots.owner_root, owner_file: v, control_root: slots.control_root, control_file: slots.control_file }, k);
        lemma_scan_bad_pair(args, i + 2, ArgSlots { owner_root: slots.owner_root, owner_file: slots.owner_file, control_root: v, control_file: slots.control_file }, k);
        lemma_scan_bad_pair(args, i + 2, ArgSlots { owner_root: slots.owner_root, owner_file: slots.owner_file, control_root: slots.control_root, control_file: v }, k);
    }
}

/// Reading from `i` on fails when some pair from `i` on is bad.
proof fn lemma_scan_fails(args: Seq<Seq<char>>, i: int, slots: ArgSlots, bad: int)
    requires
        0 <= i <= bad < args.len(),
        i % 2 == 0,
        bad % 2 == 0,
        !good_pair(args, bad),
    ensures
        scan_args(args, i, slots) is Err,
    decreases bad - i,
{
    if good_pair(args, i) {
        let v = Some(args[i + 1]);
        lemma_scan_fails(args, i + 2, ArgSlots { owner_root: v, owner_file: slots.owner_file, control_root: slots.control_root, control_file: slots.control_file }, bad);
        lemma_scan_fails(args, i + 2, ArgSlots { owner_root: slots.owner_root, owner_file: v, control_root: slots.control_root, control_file: slots.control_file }, bad);
        lemma_scan_fails(args, i + 2, ArgSlots { owner_root: slots.owner_root, owner_file: slots.owner_file, control_root: v, control_file: slots.control_file }, bad);
        lemma_scan_fails(args, i + 2, ArgSlots { owner_root: slots.owner_root, owner_file: slots.owner_file, control_root: slots.control_root, control_file: v }, bad);
    }
}

/// The value of the last pair before `i` that sets `opt` is there exactly
/// when some pair before `i` sets it, and no later pair before `i` does.
proof fn lemma_value_before(args: Seq<Seq<char>>, opt: Seq<char>, i: int)
    requires
        0 <= i <= args.len(),
        i % 2 == 0,
    ensures
        value_before(args, opt, i) is None <==> forall|k: int| 0 <= k < i && k % 2 == 0 ==> #[trigger] args[k] != opt,
        value_before(args, opt, i) matches Some(v) ==> exists|k: int|
            0 <= k && k + 2 <= i && k % 2 == 0 && #[trigger] args[k] == opt && args[k + 1] == v
                && forall|j: int| k < j < i && j % 2 == 0 ==> #[trigger] args[j] != opt,
    decreases i,
{
    if i >= 2 {
        lemma_value_before(args, opt, i - 2);
        if args[i - 2] == opt {
            assert(args[i - 2] == opt && args[i - 1] == args[i - 1]);
        } else if let Some(v) = value_before(args, opt, i - 2) {
            let k = choose|k: int|
                0 <= k && k + 2 <= i - 2 && k % 2 == 0 && #[trigger] args[k] == opt && args[k + 1] == v
                    && forall|j: int| k < j < i - 2 && j % 2 == 0 ==> #[trigger] args[j] != opt;
            assert forall|j: int| k < j < i && j % 2 == 0 implies #[trigger] args[j] != opt by {
                if j == i - 2 {
                } else {
                    assert(j < i - 2);
                }
            }
        }
    }
}

/// `value_before` at the end of a list that pairs up: the last value of an
/// option when it is given, none when it is not.
proof fn lemma_final_value(args: Seq<Seq<char>>, opt: Seq<char>)
    requires
        args.len() % 2 == 0,
    ensures
        value_before(args, opt, args.len() as int) is None <==> !option_given(args, opt),
        value_before(args, opt, args.len() as int) matches Some(v) ==> is_last_value(args, opt, v),
{
    lemma_value_before(args, opt, args.len() as int);
    if let Some(v) = value_before(args, opt, args.len() as int) {
        let k = choose|k: int|
            0 <= k && k + 2 <= args.len() && k % 2 == 0 && #[trigger] args[k] == opt && args[k + 1] == v
                && forall|j: int| k < j < args.len() && j % 2 == 0 ==> #[trigger] args[j] != opt;
        assert(option_given(args, opt));
    }
}

/// A list whose pairs are all good has even length.
proof fn lemma_well_paired_even(args: Seq<Seq<char>>)
    requires
        well_paired(args),
    ensures
        args.len() % 2 == 0,
{
    if args.len() % 2 == 1 {
        assert(good_pair(args, args.len() - 1));
    }
}

/// The command line is accepted exactly when its words pair up into options
/// and values and every one of the four options is given.
pub proof fn lemma_args_accepted_exactly_when(args: Seq<Seq<char>>)
    ensures
        parsed_args(args) is Ok <==> well_paired(args) && option_given(args, "--owner-root"@)
            && option_given(args, "--owner-file"@) && option_given(args, "--control-root"@)
            && option_given(args, "--control-file"@),
{
    if well_paired(args) {
        lemma_well_paired_even(args);
        lemma_scan_well_paired(args, 0, no_slots());
        lemma_final_value(args, "--owner-root"@);
        lemma_final_value(args, "--owner-file"@);
        lemma_final_value(args, "--control-root"@);
        lemma_final_value(args, "--control-file"@);
    } else {
        let bad = choose|k: int| 0 <= k < args.len() && k % 2 == 0 && !#[trigger] good_pair(args, k);
        lemma_scan_fails(args, 0, no_slots(), bad);
    }
}

/// Each option takes the value of the last pair that sets it.
pub proof fn lemma_last_value_wins(args: Seq<Seq<char>>)
    ensures
        parsed_args(args) matches Ok((owner, control)) ==> {
            &&& is_last_value(args, "--owner-root"@, owner.0)
            &&& is_last_value(args, "--owner-file"@, owner.1)
            &&& is_last_value(args, "--control-root"@, control.0)
            &&& is_last_value(args, "--control-file"@, control.1)
        },
{
    lemma_args_accepted_exactly_when(args);
    if parsed_args(args) is Ok {
        lemma_well_paired_even(args);
        lemma_scan_well_paired(args, 0, no_slots());
        lemma_final_value(args, "--owner-root"@);
        lemma_final_value(args, "--owner-file"@);
        lemma_final_value(args, "--control-root"@);
        lemma_final_value(args, "--control-file"@);
    }
}

/// The first bad pair decides the error: a last word with no value after
/// it, or a word that is not an option.
pub proof fn lemma_first_bad_pair_decides(args: Seq<Seq<char>>, k: int)
    requires
        0 <= k < args.len(),
        k % 2 == 0,
        !good_pair(args, k),
        forall|j: int| 0 <= j < k && j % 2 == 0 ==> #[trigger] good_pair(args, j),
    ensures
        parsed_args(args) == Err::<((Seq<char>, Seq<char>), (Seq<char>, Seq<char>)), ArgFault>(pair_fault(args, k)),
{
    lemma_scan_bad_pair(args, 0, no_slots(), k);
}

/// With every pair good, the first of the four options, in the order
/// owner root, owner file, control root, control file, that is not given
/// decides the error.
pub proof fn lemma_first_missing_option_decides(args: Seq<Seq<char>>)
    requires
        well_paired(args),
    ensures
        !option_given(args, "--owner-root"@) ==> parsed_args(args) is Err && parsed_args(args)->Err_0
            == ArgFault::MissingOwnerRoot,
        option_given(args, "--owner-root"@) && !option_given(args, "--owner-file"@) ==> parsed_args(args) is Err
            && parsed_args(args)->Err_0 == ArgFault::MissingOwnerFile,
        option_given(args, "--owner-root"@) && option_given(args, "--owner-file"@) && !option_given(
            args,
            "--control-root"@,
        ) ==> parsed_args(args) is Err && parsed_args(args)->Err_0 == ArgFault::MissingControlRoot,
        option_given(args, "--owner-root"@) && option_given(args, "--owner-file"@) && option_given(
            args,
            "--control-root"@,
        ) && !option_given(args, "--control-file"@) ==> parsed_args(args) is Err && parsed_args(args)->Err_0
            == ArgFault::MissingControlFile,
{
    lemma_well_paired_even(args);
    lemma_scan_well_paired(args, 0, no_slots());
    lemma_final_value(args, "--owner-root"@);
    lemma_final_value(args, "--owner-file"@);
    lemma_final_value(args, "--control-root"@);
    lemma_final_value(args, "--control-file"@);
}

/// The text that reports an argument fault.
pub open spec fn arg_fault_message(fault: ArgFault) -> Seq<char> {
    match fault {
        ArgFault::MissingValue(a) => "missing value for "@ + a,
        ArgFault::UnknownArgument(a) => "unknown argument: "@ + a,
        ArgFault::MissingOwnerRoot => "--owner-root is required"@,
        ArgFault::MissingOwnerFile => "--owner-file is required"@,
        ArgFault::MissingControlRoot => "--control-root is required"@,
        ArgFault::MissingControlFile => "--control-file is required"@,
    }
}

impl ArgError {
    /// The text that reports this error.
    pub fn message(&self) -> (r: String)
        ensures
            r@ == arg_fault_message(self@),
    {
        match self {
            ArgError::MissingValue(a) => {
                let mut s = "missing value for ".to_owned();
                s.append(a.as_str());
                s
            },
            ArgError::UnknownArgument(a) => {
                let mut s = "unknown argument: ".to_owned();
                s.append(a.as_str());
                s
            },
            ArgError::MissingOwnerRoot => "--owner-root is required".to_owned(),
            ArgError::MissingOwnerFile => "--owner-file is required".to_owned(),
            ArgError::MissingControlRoot => "--control-root is required".to_owned(),
            ArgError::MissingControlFile => "--control-file is required".to_owned(),
        }
    }
}

} // verus!

//! Scanning a launch's argument list for a file to open.

use vstd::prelude::*;

verus! {

/// An argument is treated as a flag, never as a path, when it begins with `-`.
pub open spec fn flag_like(arg: Seq<char>) -> bool {
    arg.len() > 0 && arg[0] == '-'
}

/// Whether `arg` begins with `-`.
pub fn is_flag_arg(arg: &str) -> (r: bool)
    ensures
        r == flag_like(arg@),
{
    arg.unicode_len() > 0 && arg.get_char(0) == '-'
}

/// Whether one argument qualifies as the file to open: it is not flag-like,
/// it names an existing regular file (`regular_file`, reported by the file
/// system), and it carries a markdown extension.
pub open spec fn arg_qualifies(arg: Seq<char>, regular_file: bool) -> bool {
    &&& !flag_like(arg)
    &&& regular_file
    &&& crate::paths::has_markdown_ext(arg)
}

/// Whether the argument at position `i` qualifies.  `regular[i]` reports
/// whether `args[i]` names an existing regular file.
pub open spec fn qualifies_at(args: Seq<String>, regular: Seq<bool>, i: int) -> bool {
    arg_qualifies(args[i]@, regular[i])
}

/// The position of the first qualifying argument at or after `from`.
pub open spec fn first_qualifying_from(args: Seq<String>, regular: Seq<bool>, from: int) -> Option<
    int,
>
    decreases args.len() - from,
{
    if from < 0 || from >= args.len() {
        None::<int>
    } else if qualifies_at(args, regular, from) {
        Some(from)
    } else {
        first_qualifying_from(args, regular, from + 1)
    }
}

/// The position of the candidate a scan selects: the first qualifying
/// argument, position 0 (the program name) never considered.
pub open spec fn first_qualifying(args: Seq<String>, regular: Seq<bool>) -> Option<int> {
    first_qualifying_from(args, regular, 1)
}

proof fn lemma_first_from_characterization(
    args: Seq<String>,
    regular: Seq<bool>,
    from: int,
    i: int,
)
    requires
        0 <= from,
    ensures
        first_qualifying_from(args, regular, from) == Some(i) <==> {
            &&& from <= i < args.len()
            &&& qualifies_at(args, regular, i)
            &&& forall|j: int| from <= j < i ==> !qualifies_at(args, regular, j)
        },
    decreases args.len() - from,
{
    if from >= args.len() {
    } else if qualifies_at(args, regular, from) {
    } else {
        lemma_first_from_characterization(args, regular, from + 1, i);
    }
}

proof fn lemma_first_from_none(args: Seq<String>, regular: Seq<bool>, from: int)
    requires
        0 <= from,
    ensures
        first_qualifying_from(args, regular, from) is None <==> (forall|j: int|
            from <= j < args.len() ==> !qualifies_at(args, regular, j)),
    decreases args.len() - from,
{
    if from >= args.len() {
    } else if qualifies_at(args, regular, from) {
    } else {
        lemma_first_from_none(args, regular, from + 1);
    }
}

/// The selected position is exactly the first qualifying one: it qualifies,
/// and no earlier argument (the program name aside) does.
pub proof fn lemma_first_qualifying_some(args: Seq<String>, regular: Seq<bool>, i: int)
    ensures
        first_qualifying(args, regular) == Some(i) <==> {
            &&& 1 <= i < args.len()
            &&& qualifies_at(args, regular, i)
            &&& forall|j: int| 1 <= j < i ==> !qualifies_at(args, regular, j)
        },
{
    lemma_first_from_characterization(args, regular, 1, i);
}

/// Nothing is selected exactly when no argument past the program name
/// qualifies.
pub proof fn lemma_first_qualifying_none(args: Seq<String>, regular: Seq<bool>)
    ensures
        first_qualifying(args, regular) is None <==> (forall|j: int|
            1 <= j < args.len() ==> !qualifies_at(args, regular, j)),
{
    lemma_first_from_none(args, regular, 1);
}

/// A scan never selects position 0 (the program name) nor a flag-like
/// argument.
pub proof fn lemma_candidate_skips_program_and_flags(
    args: Seq<String>,
    regular: Seq<bool>,
    i: int,
)
    requires
        first_qualifying(args, regular) == Some(i),
    ensures
        1 <= i < args.len(),
        !flag_like(args[i]@),
{
    lemma_first_qualifying_some(args, regular, i);
}

/// When exactly one argument qualifies, the scan selects it.
pub proof fn lemma_unique_qualifying_selected(args: Seq<String>, regular: Seq<bool>, i: int)
    requires
        1 <= i < args.len(),
        qualifies_at(args, regular, i),
        forall|j: int| 1 <= j < args.len() && j != i ==> !qualifies_at(args, regular, j),
    ensures
        first_qualifying(args, regular) == Some(i),
{
    lemma_first_qualifying_some(args, regular, i);
}

/// Among several qualifying arguments, the selected one is never later than
/// any of them: the first in order wins.
pub proof fn lemma_earliest_qualifying_selected(args: Seq<String>, regular: Seq<bool>, i: int)
    requires
        1 <= i < args.len(),
        qualifies_at(args, regular, i),
    ensures
        first_qualifying(args, regular) matches Some(k) && 1 <= k <= i && qualifies_at(
            args,
            regular,
            k,
        ),
{
    lemma_first_qualifying_none(args, regular);
    let k = first_qualifying(args, regular)->Some_0;
    lemma_first_qualifying_some(args, regular, k);
    if k > i {
        assert(!qualifies_at(args, regular, i));
    }
}

/// Scans `args` for the first qualifying argument.  `regular_file[i]` reports
/// whether `args[i]` names an existing regular file; an argument whose probe
/// failed is reported as `false` and thereby skipped.
pub fn select_candidate(args: &Vec<String>, regular_file: &Vec<bool>) -> (r: Option<usize>)
    requires
        args@.len() == regular_file@.len(),
    ensures
        match r {
            Some(i) => 1 <= i < args@.len() && first_qualifying(args@, regular_file@) == Some(
                i as int,
            ),
            None => first_qualifying(args@, regular_file@) is None,
        },
{
    let n = args.len();
    let mut i: usize = 1;
    while i < n
        invariant
            n == args@.len() == regular_file@.len(),
            1 <= i,
            forall|j: int| 1 <= j < i ==> !qualifies_at(args@, regular_file@, j),
        decreases n - i,
    {
        let arg = &args[i];
        if !is_flag_arg(arg.as_str()) && regular_file[i] && crate::paths::has_markdown_extension(
            arg.as_str(),
        ) {
            proof {
                lemma_first_qualifying_some(args@, regular_file@, i as int);
            }
            return Some(i);
        }
        i += 1;
    }
    proof {
        lemma_first_qualifying_none(args@, regular_file@);
    }
    None
}

} // verus!

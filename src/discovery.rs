use vstd::prelude::*;
use vstd::string::*;

use crate::error::MosaicError;

verus! {

/// `pattern` occurs in `text` starting at position `at`.
pub open spec fn occurs_at(text: Seq<char>, pattern: Seq<char>, at: int) -> bool {
    &&& 0 <= at
    &&& at + pattern.len() <= text.len()
    &&& text.subrange(at, at + pattern.len()) == pattern
}

/// `pattern` occurs somewhere in `text`.
pub open spec fn occurs_in(text: Seq<char>, pattern: Seq<char>) -> bool {
    exists|at: int| occurs_at(text, pattern, at)
}

/// `text` ends with `suffix`.
pub open spec fn ends_with(text: Seq<char>, suffix: Seq<char>) -> bool {
    suffix.len() <= text.len() && occurs_at(text, suffix, text.len() - suffix.len())
}

/// The marker that the name of a generated mosaic holds.
pub open spec fn output_marker() -> Seq<char> {
    seq!['r', 'e', 's', 'u', 'l', 't']
}

/// The file extensions taken as images, in the order in which they are gathered.
pub open spec fn image_extension(rank: int) -> Seq<char> {
    if rank == 0 {
        seq!['.', 'p', 'n', 'g']
    } else if rank == 1 {
        seq!['.', 'j', 'p', 'g']
    } else if rank == 2 {
        seq!['.', 'J', 'P', 'G']
    } else {
        seq!['.', 'j', 'p', 'e', 'g']
    }
}

/// Number of accepted image extensions.
pub const EXTENSION_COUNT: usize = 4;

/// A file of this name is a mosaic made earlier and never an input.
pub open spec fn is_output_name(name: Seq<char>) -> bool {
    occurs_in(name, output_marker())
}

/// A file of this name is an input image of the extension of `rank`.
pub open spec fn is_input_of_rank(name: Seq<char>, rank: int) -> bool {
    ends_with(name, image_extension(rank)) && !is_output_name(name)
}

/// A file of this name is an input image.
pub open spec fn is_input_name(name: Seq<char>) -> bool {
    exists|rank: int| 0 <= rank < EXTENSION_COUNT && #[trigger] is_input_of_rank(name, rank)
}

/// The path at `index` has a file name that is an input image of extension `rank`.
pub open spec fn picks_entry(names: Seq<Option<String>>, rank: int, index: int) -> bool {
    match names[index] {
        Some(s) => is_input_of_rank(s@, rank),
        None => false,
    }
}

/// Positions below `upto` of the input images of extension `rank`, in order.
pub open spec fn picks_of_rank(names: Seq<Option<String>>, rank: int, upto: int) -> Seq<usize>
    decreases upto,
{
    if upto <= 0 {
        Seq::empty()
    } else {
        let before = picks_of_rank(names, rank, upto - 1);
        if picks_entry(names, rank, upto - 1) {
            before.push((upto - 1) as usize)
        } else {
            before
        }
    }
}

/// Positions of the input images among `names`: those of the first extension,
/// then those of the second, and so on, each group in listing order.
pub open spec fn picks_before_rank(names: Seq<Option<String>>, ranks: int) -> Seq<usize>
    decreases ranks,
{
    if ranks <= 0 {
        Seq::empty()
    } else {
        picks_before_rank(names, ranks - 1) + picks_of_rank(names, ranks - 1, names.len() as int)
    }
}

/// Positions of the input images among `names`, grouped by extension.
pub open spec fn selection(names: Seq<Option<String>>) -> Seq<usize> {
    picks_before_rank(names, EXTENSION_COUNT as int)
}

fn occurs_at_exec(text: &str, pattern: &str, at: usize) -> (r: bool)
    ensures
        r == occurs_at(text@, pattern@, at as int),
{
    let n = text.unicode_len();
    let m = pattern.unicode_len();
    if at > n || m > n - at {
        return false;
    }
    let mut j: usize = 0;
    while j < m
        invariant
            n == text@.len(),
            m == pattern@.len(),
            at + m <= n,
            j <= m,
            forall|k: int| 0 <= k < j ==> text@[at + k] == pattern@[k],
        decreases m - j,
    {
        if text.get_char(at + j) != pattern.get_char(j) {
            assert(text@.subrange(at as int, at + m)[j as int] != pattern@[j as int]);
            return false;
        }
        j = j + 1;
    }
    assert(text@.subrange(at as int, at + m) =~= pattern@);
    true
}

fn occurs_in_exec(text: &str, pattern: &str) -> (r: bool)
    ensures
        r == occurs_in(text@, pattern@),
{
    let n = text.unicode_len();
    let mut at: usize = 0;
    while at <= n
        invariant
            n == text@.len(),
            forall|k: int| 0 <= k < at ==> !occurs_at(text@, pattern@, k),
        decreases n + 1 - at,
    {
        if occurs_at_exec(text, pattern, at) {
            return true;
        }
        if at == n {
            assert forall|k: int| !occurs_at(text@, pattern@, k) by {
                if 0 <= k && k > n {
                    assert(k + pattern@.len() > text@.len());
                }
            }
            return false;
        }
        at = at + 1;
    }
    false
}

fn ends_with_exec(text: &str, suffix: &str) -> (r: bool)
    ensures
        r == ends_with(text@, suffix@),
{
    let n = text.unicode_len();
    let m = suffix.unicode_len();
    if m > n {
        return false;
    }
    occurs_at_exec(text, suffix, n - m)
}

fn extension_text(rank: usize) -> (r: &'static str)
    requires
        rank < EXTENSION_COUNT,
    ensures
        r@ == image_extension(rank as int),
{
    if rank == 0 {
        proof {
            reveal_strlit(".png");
        }
        let r = ".png";
        assert(r@ =~= image_extension(0));
        r
    } else if rank == 1 {
        proof {
            reveal_strlit(".jpg");
        }
        let r = ".jpg";
        assert(r@ =~= image_extension(1));
        r
    } else if rank == 2 {
        proof {
            reveal_strlit(".JPG");
        }
        let r = ".JPG";
        assert(r@ =~= image_extension(2));
        r
    } else {
        proof {
            reveal_strlit(".jpeg");
        }
        let r = ".jpeg";
        assert(r@ =~= image_extension(3));
        r
    }
}

/// Whether a file of this name is a mosaic made earlier.
pub fn is_output_file_name(name: &str) -> (r: bool)
    ensures
        r == is_output_name(name@),
{
    proof {
        reveal_strlit("result");
    }
    let marker = "result";
    assert(marker@ =~= output_marker());
    occurs_in_exec(name, marker)
}

/// Whether a file of this name is an input image of the extension of `rank`.
pub fn is_input_file_name_of_rank(name: &str, rank: usize) -> (r: bool)
    requires
        rank < EXTENSION_COUNT,
    ensures
        r == is_input_of_rank(name@, rank as int),
{
    let ext = extension_text(rank);
    ends_with_exec(name, ext) && !is_output_file_name(name)
}

/// Whether a file of this name is an input image.
pub fn is_input_file_name(name: &str) -> (r: bool)
    ensures
        r == is_input_name(name@),
{
    let mut rank: usize = 0;
    while rank < EXTENSION_COUNT
        invariant
            rank <= EXTENSION_COUNT,
            forall|k: int| 0 <= k < rank ==> !#[trigger] is_input_of_rank(name@, k),
        decreases EXTENSION_COUNT - rank,
    {
        if is_input_file_name_of_rank(name, rank) {
            return true;
        }
        rank = rank + 1;
    }
    false
}

/// Some path among `names` has no file name that can be read as text.
pub open spec fn has_unnamed(names: Seq<Option<String>>) -> bool {
    exists|i: int| 0 <= i < names.len() && #[trigger] names[i] is None
}

/// Picks the input images among the file names of the paths found under the
/// scan root (`None` where a path has no readable file name): the positions of
/// the `.png` files, then of the `.jpg`, `.JPG` and `.jpeg` files, each group in
/// listing order, leaving out every earlier mosaic.
pub fn select_inputs(names: &Vec<Option<String>>) -> (r: Result<Vec<usize>, MosaicError>)
    ensures
        r matches Err(MosaicError::InvalidPath) <==> has_unnamed(names@),
        r matches Err(MosaicError::NoImagesFound) <==> !has_unnamed(names@) && selection(
            names@,
        ).len() == 0,
        r matches Err(e) ==> e == MosaicError::InvalidPath || e == MosaicError::NoImagesFound,
        r matches Ok(picked) ==> picked@ == selection(names@),
{
    let n = names.len();
    let mut i: usize = 0;
    while i < n
        invariant
            n == names@.len(),
            i <= n,
            forall|k: int| 0 <= k < i ==> !(#[trigger] names@[k] is None),
        decreases n - i,
    {
        if names[i].is_none() {
            return Err(MosaicError::InvalidPath);
        }
        i = i + 1;
    }
    let mut picked: Vec<usize> = Vec::new();
    let mut rank: usize = 0;
    while rank < EXTENSION_COUNT
        invariant
            n == names@.len(),
            rank <= EXTENSION_COUNT,
            picked@ == picks_before_rank(names@, rank as int),
        decreases EXTENSION_COUNT - rank,
    {
        let ghost start = picked@;
        let mut j: usize = 0;
        while j < n
            invariant
                n == names@.len(),
                rank < EXTENSION_COUNT,
                j <= n,
                picked@ == start + picks_of_rank(names@, rank as int, j as int),
            decreases n - j,
        {
            match &names[j] {
                Some(name) => {
                    if is_input_file_name_of_rank(name.as_str(), rank) {
                        picked.push(j);
                    }
                },
                None => {},
            }
            proof {
                let q = picks_of_rank(names@, rank as int, j as int);
                assert(start + q.push(j) =~= (start + q).push(j));
            }
            j = j + 1;
        }
        rank = rank + 1;
    }
    if picked.len() == 0 {
        return Err(MosaicError::NoImagesFound);
    }
    Ok(picked)
}

/// A file whose name marks it as a mosaic made earlier is never picked as input.
pub proof fn lemma_output_never_selected(names: Seq<Option<String>>, k: int)
    requires
        names.len() <= usize::MAX,
        0 <= k < selection(names).len(),
    ensures
        0 <= selection(names)[k] < names.len(),
        names[selection(names)[k] as int] matches Some(s) && !is_output_name(s@) && is_input_name(s@),
{
    lemma_picks_before_rank(names, EXTENSION_COUNT as int);
}

proof fn lemma_picks_of_rank(names: Seq<Option<String>>, rank: int, upto: int)
    requires
        0 <= rank < EXTENSION_COUNT,
        upto <= names.len(),
        names.len() <= usize::MAX,
    ensures
        forall|k: int|
            0 <= k < picks_of_rank(names, rank, upto).len() ==> {
                let p = #[trigger] picks_of_rank(names, rank, upto)[k] as int;
                0 <= p < names.len() && picks_entry(names, rank, p)
            },
    decreases upto,
{
    if upto > 0 {
        let before = picks_of_rank(names, rank, upto - 1);
        lemma_picks_of_rank(names, rank, upto - 1);
        assert forall|k: int| 0 <= k < picks_of_rank(names, rank, upto).len() implies {
            let p = #[trigger] picks_of_rank(names, rank, upto)[k] as int;
            0 <= p < names.len() && picks_entry(names, rank, p)
        } by {
            if k < before.len() {
                assert(picks_of_rank(names, rank, upto)[k] == before[k]);
            } else {
                assert(picks_entry(names, rank, upto - 1));
            }
        }
    }
}

proof fn lemma_picks_before_rank(names: Seq<Option<String>>, ranks: int)
    requires
        ranks <= EXTENSION_COUNT,
        names.len() <= usize::MAX,
    ensures
        forall|k: int|
            0 <= k < picks_before_rank(names, ranks).len() ==> {
                let p = #[trigger] picks_before_rank(names, ranks)[k] as int;
                &&& 0 <= p < names.len()
                &&& names[p] matches Some(s) && !is_output_name(s@) && is_input_name(s@)
            },
    decreases ranks,
{
    if ranks > 0 {
        let before = picks_before_rank(names, ranks - 1);
        let here = picks_of_rank(names, ranks - 1, names.len() as int);
        lemma_picks_before_rank(names, ranks - 1);
        lemma_picks_of_rank(names, ranks - 1, names.len() as int);
        assert forall|k: int| 0 <= k < picks_before_rank(names, ranks).len() implies {
            let p = #[trigger] picks_before_rank(names, ranks)[k] as int;
            &&& 0 <= p < names.len()
            &&& names[p] matches Some(s) && !is_output_name(s@) && is_input_name(s@)
        } by {
            if k < before.len() {
                assert(picks_before_rank(names, ranks)[k] == before[k]);
            } else {
                assert(picks_before_rank(names, ranks)[k] == here[k - before.len()]);
                let p = here[k - before.len()] as int;
                assert(picks_entry(names, ranks - 1, p));
                let s = names[p]->Some_0;
                assert(is_input_of_rank(s@, ranks - 1));
            }
        }
    }
}

} // verus!

//! Sample file names.
//!
//! A sample file is named `<index>.png`. While the reconciler renumbers a
//! directory it renames every sample to a staged name `<index>.png_`: the
//! trailing marker keeps every staged name distinct from every final name,
//! so the renumbering can never overwrite a file it has not yet processed.

use crate::digits::{dec_of, lemma_dec_injective, lemma_dec_len, u32_to_dec};
use vstd::prelude::*;

verus! {

/// Error from name handling: the staged name is too short to carry the
/// marker that should be stripped from it.
#[derive(Clone, Copy, Debug, PartialEq, Eq)]
pub enum PathError {
    NameTooShort,
}

/// The sample file extension, with its dot.
pub open spec fn ext_seq() -> Seq<char> {
    seq!['.', 'p', 'n', 'g']
}

/// The final name of the sample with index `i`: `<i>.png`.
pub open spec fn final_name_of(i: nat) -> Seq<char> {
    dec_of(i) + ext_seq()
}

/// The staged name of the sample with index `i`: `<i>.png_`.
pub open spec fn staged_name_of(i: nat) -> Seq<char> {
    final_name_of(i).push('_')
}

/// A name the scan can hand to the reconciler: it ends in the sample
/// extension.
pub open spec fn is_sample_name(s: Seq<char>) -> bool {
    s.len() >= 4 && s.subrange(s.len() - 4, s.len() as int) == ext_seq()
}

/// Distinct indices have distinct final names.
pub proof fn lemma_final_name_injective(i: nat, j: nat)
    requires
        final_name_of(i) == final_name_of(j),
    ensures
        i == j,
{
    let a = dec_of(i);
    let b = dec_of(j);
    assert(a + ext_seq() == b + ext_seq());
    assert((a + ext_seq()).len() == a.len() + ext_seq().len());
    assert((b + ext_seq()).len() == b.len() + ext_seq().len());
    assert(a.len() == b.len());
    assert(a =~= b) by {
        assert forall|k: int| 0 <= k < a.len() implies a[k] == b[k] by {
            assert((a + ext_seq())[k] == a[k]);
            assert((b + ext_seq())[k] == b[k]);
        }
    }
    lemma_dec_injective(i, j);
}

/// Distinct indices have distinct staged names.
pub proof fn lemma_staged_name_injective(i: nat, j: nat)
    requires
        staged_name_of(i) == staged_name_of(j),
    ensures
        i == j,
{
    assert(staged_name_of(i).drop_last() =~= final_name_of(i));
    assert(staged_name_of(j).drop_last() =~= final_name_of(j));
    lemma_final_name_injective(i, j);
}

/// A staged name never equals a scanned sample name: the staged name ends
/// in the marker, the sample name in the extension.
pub proof fn lemma_staged_name_not_sample(i: nat, s: Seq<char>)
    requires
        is_sample_name(s),
    ensures
        staged_name_of(i) != s,
{
    lemma_dec_len(i);
    assert(staged_name_of(i).last() == '_');
    assert(s.last() == s.subrange(s.len() - 4, s.len() as int)[3]);
    assert(s.last() == 'g');
}

/// Stripping the marker from a staged name yields the final name.
pub proof fn lemma_commit_of_staged(i: nat)
    ensures
        staged_name_of(i).drop_last() == final_name_of(i),
{
    assert(staged_name_of(i).drop_last() =~= final_name_of(i));
}

/// Build the final name `<i>.png`.
pub fn final_name(i: u32) -> (s: String)
    ensures
        s@ == final_name_of(i as nat),
{
    let mut s = u32_to_dec(i);
    s.append(".png");
    proof {
        reveal_strlit(".png");
        assert(s@ =~= final_name_of(i as nat));
    }
    s
}

/// Build the staged name `<i>.png_`.
pub fn staged_name(i: u32) -> (s: String)
    ensures
        s@ == staged_name_of(i as nat),
{
    let mut s = final_name(i);
    s.append("_");
    proof {
        reveal_strlit("_");
        assert(s@ =~= staged_name_of(i as nat));
    }
    s
}

/// The name a staged file is committed to: the staged name with its last
/// character (the marker) stripped. Fails when the name is empty and there
/// is nothing to strip.
pub fn commit_name(staged: &str) -> (r: Result<String, PathError>)
    ensures
        staged@.len() == 0 ==> r == Err::<String, PathError>(PathError::NameTooShort),
        staged@.len() > 0 ==> (r matches Ok(s) && s@ == staged@.drop_last()),
{
    let n = staged.unicode_len();
    if n == 0 {
        Err(PathError::NameTooShort)
    } else {
        let head = staged.substring_char(0, n - 1);
        proof {
            assert(head@ =~= staged@.drop_last());
        }
        Ok(String::from_str(head))
    }
}

/// The directory for the label `label` under the dataset root: the root
/// with the one-character label appended as a subdirectory.
pub fn label_dir(root: &str, label: char) -> (s: String)
    ensures
        s@ == root@ + seq!['/'] + seq![label],
{
    let mut s = String::from_str(root);
    s.append("/");
    push_char(&mut s, label);
    proof {
        reveal_strlit("/");
        assert(s@ =~= root@ + seq!['/'] + seq![label]);
    }
    s
}

/// Relies on String::push: appends exactly the one character.
#[verifier::external_body]
fn push_char(s: &mut String, c: char)
    ensures
        final(s)@ == old(s)@.push(c),
{
    s.push(c);
}

} // verus!

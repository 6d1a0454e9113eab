//! Drive roots: the top of each volume where volumes are lettered.

use vstd::prelude::*;
use crate::path::Platform;
use crate::text::{kept, push_char, texts};

verus! {

/// The letters a drive can have, in order.
pub open spec fn drive_letters() -> Seq<char> {
    "ABCDEFGHIJKLMNOPQRSTUVWXYZ"@
}

/// The root of the drive with the given letter, as the host writes it.
pub open spec fn drive_root(letter: char) -> Seq<char> {
    seq![letter, ':', '\\']
}

/// Every drive root the platform could have: one for each letter where
/// drives are lettered, none elsewhere.
pub open spec fn drive_roots(platform: Platform) -> Seq<Seq<char>> {
    match platform {
        Platform::Windows => Seq::new(
            drive_letters().len(),
            |i: int| drive_root(drive_letters()[i]),
        ),
        Platform::Posix => Seq::empty(),
    }
}

/// The drive roots to probe on this platform.
pub fn drive_candidates(platform: Platform) -> (r: Vec<String>)
    ensures
        texts(r@) == drive_roots(platform),
{
    let mut r: Vec<String> = Vec::new();
    match platform {
        Platform::Windows => {
            for letter in it: "ABCDEFGHIJKLMNOPQRSTUVWXYZ".chars()
                invariant
                    it.seq() == drive_letters(),
                    texts(r@) == Seq::new(
                        it.index() as nat,
                        |i: int| drive_root(drive_letters()[i]),
                    ),
            {
                let ghost front = texts(r@);
                let mut root = String::new();
                push_char(&mut root, letter);
                push_char(&mut root, ':');
                push_char(&mut root, '\\');
                assert(root@ =~= drive_root(letter));
                r.push(root);
                assert(texts(r@) =~= front.push(drive_root(letter)));
            }
        },
        Platform::Posix => {
            assert(texts(r@) =~= Seq::<Seq<char>>::empty());
        },
    }
    r
}

/// The drive roots that are present. `present[i]` tells whether the `i`-th
/// of `drive_candidates` exists as a directory.
pub fn listdrives(platform: Platform, present: &Vec<bool>) -> (r: Vec<String>)
    ensures
        texts(r@) == kept(drive_roots(platform), present@),
{
    let candidates = drive_candidates(platform);
    let ghost all = texts(candidates@);
    assert(all.len() == candidates.len());
    let mut r: Vec<String> = Vec::new();
    let mut at: usize = 0;
    assert(all.take(0) =~= Seq::<Seq<char>>::empty());
    assert(texts(r@) =~= kept(all.take(0), present@));
    for root in it: candidates
        invariant
            texts(it.seq()) == all,
            all.len() <= usize::MAX,
            at == it.index(),
            texts(r@) == kept(all.take(at as int), present@),
    {
        let ghost front = texts(r@);
        assert(all.take(at + 1).drop_last() =~= all.take(at as int));
        assert(root@ == all[at as int]);
        if at < present.len() && present[at] {
            r.push(root);
            assert(texts(r@) =~= front.push(all[at as int]));
        }
        at += 1;
    }
    assert(all.take(all.len() as int) =~= all);
    r
}

} // verus!

//! The daemon's decisions on a request to append or replace a directory:
//! whether it is accepted, which state is recorded, whether the directory
//! is to be downloaded, and what becomes of its state files when the
//! download ends.
use vstd::prelude::*;

use crate::config::Directory;
use crate::signatures::{
    add_unique, append_signatures, clone_entries, entries_eq, entry_views, sort_signatures,
    sorted_entries, ImageId, SignatureEntry, State,
};

verus! {

/// The answer to an upload request.
#[derive(Debug, Clone, Copy)]
pub struct Upload {
    pub accepted: bool,
    pub reject_reason: Option<&'static str>,
    /// Set when the directory is new, so that it is to be downloaded.
    pub new: bool,
}

/// A directory that is being written.
#[derive(Debug)]
pub struct Writing {
    pub image: ImageId,
    pub signatures: Vec<SignatureEntry>,
    pub replacing: bool,
}

/// `u` refuses the request for `reason`.
pub open spec fn rejects(u: Upload, reason: Seq<char>) -> bool {
    &&& !u.accepted
    &&& !u.new
    &&& u.reject_reason matches Some(r) && r@ == reason
}

/// `u` accepts the request; `new` tells whether the directory is new.
pub open spec fn accepts(u: Upload, new: bool) -> bool {
    u.accepted && u.reject_reason is None && u.new == new
}

/// The answer accepting a request.
pub fn accept(new: bool) -> (res: Upload)
    ensures
        accepts(res, new),
{
    Upload { accepted: true, reject_reason: None, new: new }
}

/// The answer refusing a request for `reason`.
pub fn reject(reason: &'static str) -> (res: Upload)
    ensures
        rejects(res, reason@),
{
    Upload { accepted: false, reject_reason: Some(reason), new: false }
}

/// The signatures of a request, all made at `timestamp`, sorted.
pub fn signature_entries(timestamp: u64, signatures: Vec<Vec<u8>>) -> (res: Vec<SignatureEntry>)
    ensures
        sorted_entries(entry_views(res@)),
        entry_views(res@).to_multiset() == signatures@.map_values(|s: Vec<u8>| (timestamp, s@)).to_multiset(),
{
    let ghost target = signatures@.map_values(|s: Vec<u8>| (timestamp, s@));
    let mut res: Vec<SignatureEntry> = Vec::new();
    let mut src = signatures;
    let ghost orig = src@;
    while src.len() > 0
        invariant
            src@.len() <= orig.len(),
            src@ == orig.skip(orig.len() - src@.len()),
            target == orig.map_values(|s: Vec<u8>| (timestamp, s@)),
            entry_views(res@) == target.take(orig.len() - src@.len()),
        decreases src.len(),
    {
        let ghost done = orig.len() - src@.len();
        let s = src.remove(0);
        assert(s == orig[done]);
        let ghost before = res@;
        res.push(SignatureEntry { timestamp: timestamp, signature: s });
        assert(entry_views(res@) =~= entry_views(before).push((timestamp, orig[done]@)));
        assert(entry_views(res@) =~= target.take(done + 1));
        assert(src@ =~= orig.skip(done + 1));
    }
    assert(target.take(orig.len() as int) =~= target);
    sort_signatures(&mut res);
    res
}

/// The signatures `sigs` end up with when `new` are appended: unchanged if
/// `new` is the same list, otherwise with the new ones added and sorted.
pub open spec fn appended(
    old: Seq<(u64, Seq<u8>)>,
    new: Seq<(u64, Seq<u8>)>,
    result: Seq<(u64, Seq<u8>)>,
) -> bool {
    if old == new {
        result == old
    } else {
        sorted_entries(result) && result.to_multiset() == add_unique(old, new).to_multiset()
    }
}

/// Appends to a directory that is being written: accepted (recording the
/// merged signatures) when it is being written with the same image, refused
/// with `already_uploading_different_version` otherwise.
pub fn append_while_writing(wr: &mut Writing, image: &ImageId, signatures: Vec<SignatureEntry>)
    -> (res: Result<State, Upload>)
    ensures
        final(wr).image@ == old(wr).image@,
        final(wr).replacing == old(wr).replacing,
        old(wr).image@ != image@ ==> entry_views(final(wr).signatures@) == entry_views(
            old(wr).signatures@,
        ),
        old(wr).image@ != image@ ==> (res matches Err(u) && rejects(
            u,
            "already_uploading_different_version"@,
        )),
        old(wr).image@ == image@ ==> appended(
            entry_views(old(wr).signatures@),
            entry_views(signatures@),
            entry_views(final(wr).signatures@),
        ),
        old(wr).image@ == image@ ==> (res matches Ok(st) && st.image@ == image@ && entry_views(
            st.signatures@,
        ) == entry_views(final(wr).signatures@)),
{
    if wr.image.same_as(image) {
        if !entries_eq(&signatures, &wr.signatures) {
            append_signatures(&mut wr.signatures, signatures);
        }
        Ok(State { image: wr.image.clone(), signatures: clone_entries(&wr.signatures) })
    } else {
        Err(reject("already_uploading_different_version"))
    }
}

/// Appends to a directory that is not being written, given the state
/// recorded for it (if any). With no recorded state the directory is new:
/// the result records the request's image and signatures and starts writing
/// it. With the same image recorded, the signatures are merged. With another
/// image recorded, the request is refused with `already_exists`.
pub fn append_to_stored(stored: Option<State>, image: &ImageId, signatures: Vec<SignatureEntry>)
    -> (res: Result<(State, Option<Writing>), Upload>)
    ensures
        match stored {
            Some(st) => if st.image@ == image@ {
                res matches Ok((s, w)) && w is None && s.image@ == image@ && sorted_entries(
                    entry_views(s.signatures@),
                ) && entry_views(s.signatures@).to_multiset() == add_unique(
                    entry_views(st.signatures@),
                    entry_views(signatures@),
                ).to_multiset()
            } else {
                res matches Err(u) && rejects(u, "already_exists"@)
            },
            None => res matches Ok((s, Some(w))) && s.image@ == image@ && entry_views(
                s.signatures@,
            ) == entry_views(signatures@) && w.image@ == image@ && entry_views(w.signatures@)
                == entry_views(signatures@) && !w.replacing,
        },
{
    match stored {
        Some(mut state) => {
            if state.image.same_as(image) {
                append_signatures(&mut state.signatures, signatures);
                Ok((state, None))
            } else {
                Err(reject("already_exists"))
            }
        },
        None => {
            let w = Writing {
                image: image.clone(),
                signatures: clone_entries(&signatures),
                replacing: false,
            };
            Ok((State { image: image.clone(), signatures: signatures }, Some(w)))
        },
    }
}

/// Replaces a directory that is being written: accepted (recording the
/// merged signatures, and still replacing if it was) when it is being written
/// with the same image, refused with `already_uploading_different_version`
/// otherwise.
pub fn replace_while_writing(wr: &mut Writing, image: &ImageId, signatures: Vec<SignatureEntry>)
    -> (res: Result<(State, bool), Upload>)
    ensures
        final(wr).image@ == old(wr).image@,
        final(wr).replacing == old(wr).replacing,
        old(wr).image@ != image@ ==> entry_views(final(wr).signatures@) == entry_views(
            old(wr).signatures@,
        ),
        old(wr).image@ != image@ ==> (res matches Err(u) && rejects(
            u,
            "already_uploading_different_version"@,
        )),
        old(wr).image@ == image@ ==> appended(
            entry_views(old(wr).signatures@),
            entry_views(signatures@),
            entry_views(final(wr).signatures@),
        ),
        old(wr).image@ == image@ ==> (res matches Ok((st, replacing)) && replacing
            == old(wr).replacing && st.image@ == image@ && entry_views(st.signatures@)
            == entry_views(final(wr).signatures@)),
{
    let replacing = wr.replacing;
    match append_while_writing(wr, image, signatures) {
        Ok(state) => Ok((state, replacing)),
        Err(u) => Err(u),
    }
}

/// Replaces a directory that is not being written, given the state recorded
/// for it (if any). With the same image recorded, the signatures are merged.
/// With another image recorded, the new image is written to replace it.
/// With none recorded, the directory is new. The flag tells whether an
/// existing image is being replaced (the state then goes to the `.new.state`
/// file); a returned `Writing` starts writing the directory.
pub fn replace_to_stored(stored: Option<State>, image: &ImageId, signatures: Vec<SignatureEntry>)
    -> (res: (State, Option<Writing>, bool))
    ensures
        match stored {
            Some(st) => if st.image@ == image@ {
                res.1 is None && !res.2 && res.0.image@ == image@ && sorted_entries(
                    entry_views(res.0.signatures@),
                ) && entry_views(res.0.signatures@).to_multiset() == add_unique(
                    entry_views(st.signatures@),
                    entry_views(signatures@),
                ).to_multiset()
            } else {
                &&& res.2
                &&& res.0.image@ == image@
                &&& entry_views(res.0.signatures@) == entry_views(signatures@)
                &&& res.1 matches Some(w) && w.image@ == image@ && entry_views(w.signatures@)
                    == entry_views(signatures@) && w.replacing
            },
            None => {
                &&& !res.2
                &&& res.0.image@ == image@
                &&& entry_views(res.0.signatures@) == entry_views(signatures@)
                &&& res.1 matches Some(w) && w.image@ == image@ && entry_views(w.signatures@)
                    == entry_views(signatures@) && !w.replacing
            },
        },
{
    match stored {
        Some(mut state) => {
            if state.image.same_as(image) {
                append_signatures(&mut state.signatures, signatures);
                (state, None, false)
            } else {
                let w = Writing {
                    image: image.clone(),
                    signatures: clone_entries(&signatures),
                    replacing: true,
                };
                (State { image: image.clone(), signatures: signatures }, Some(w), true)
            }
        },
        None => {
            let w = Writing {
                image: image.clone(),
                signatures: clone_entries(&signatures),
                replacing: false,
            };
            (State { image: image.clone(), signatures: signatures }, Some(w), false)
        },
    }
}

/// The name of the file that records the state of the directory `name`.
pub fn state_file_name(name: &str) -> (res: String)
    ensures
        res@ == name@ + ".state"@,
{
    let mut s = name.to_owned();
    s.append(".state");
    s
}

/// The name of the file that records the state of the image replacing the
/// directory `name`.
pub fn new_state_file_name(name: &str) -> (res: String)
    ensures
        res@ == name@ + ".new.state"@,
{
    let mut s = name.to_owned();
    s.append(".new.state");
    s
}

/// What is done to the state files of a directory when the download of
/// the image being written into it ends.
#[derive(Debug, PartialEq, Eq)]
pub enum StateFileChange {
    /// The file with this name is removed.
    Remove(String),
    /// The first file is renamed to the second.
    Rename(String, String),
    /// Nothing changes.
    Keep,
}

/// The change to the state files of the directory `name` when the download
/// of the image being written into it (`replacing` tells how) ends,
/// `committed` or aborted. An aborted replacement removes the directory's
/// state file and an aborted append the replacement's state file (the
/// daemon pairs them so); a committed replacement puts its state file in
/// place of the directory's; a committed append changes nothing.
pub fn finish_change(name: &str, replacing: bool, committed: bool) -> (res: StateFileChange)
    ensures
        committed && replacing ==> (res matches StateFileChange::Rename(from, to) && from@ == name@
            + ".new.state"@ && to@ == name@ + ".state"@),
        committed && !replacing ==> res == StateFileChange::Keep,
        !committed && replacing ==> (res matches StateFileChange::Remove(f) && f@ == name@
            + ".state"@),
        !committed && !replacing ==> (res matches StateFileChange::Remove(f) && f@ == name@
            + ".new.state"@),
{
    if committed {
        if replacing {
            StateFileChange::Rename(new_state_file_name(name), state_file_name(name))
        } else {
            StateFileChange::Keep
        }
    } else if replacing {
        StateFileChange::Remove(state_file_name(name))
    } else {
        StateFileChange::Remove(new_state_file_name(name))
    }
}

/// Why a request for a directory cannot be taken.
#[derive(Debug, Clone, Copy, PartialEq, Eq)]
pub enum TargetError {
    /// No base directory is configured for the path.
    PathNotFound,
    /// The path is this many levels below its base directory, which has
    /// directories at that many levels.
    LevelMismatch(usize, usize),
}

/// Checks a request for a directory `level` levels below its base
/// directory, configured as `config` (none when the base directory is not
/// configured): the base directory must be configured and the level must
/// be its number of levels; a replacement is refused with
/// `dir_is_append_only` where the base directory only takes appends.
/// `Ok(None)` lets the request go on.
pub fn check_target(config: Option<&Directory>, level: usize, replace: bool) -> (res: Result<
    Option<Upload>,
    TargetError,
>)
    ensures
        match config {
            None => res == Err::<Option<Upload>, TargetError>(TargetError::PathNotFound),
            Some(c) => if level != c.num_levels {
                res == Err::<Option<Upload>, TargetError>(
                    TargetError::LevelMismatch(level, c.num_levels),
                )
            } else if replace && c.append_only {
                res matches Ok(Some(u)) && rejects(u, "dir_is_append_only"@)
            } else {
                res == Ok::<Option<Upload>, TargetError>(None)
            },
        },
{
    match config {
        None => Err(TargetError::PathNotFound),
        Some(c) => {
            if level != c.num_levels {
                Err(TargetError::LevelMismatch(level, c.num_levels))
            } else if replace && c.append_only {
                Ok(Some(reject("dir_is_append_only")))
            } else {
                Ok(None)
            }
        },
    }
}

/// What a request to append to the directory `name` does, given what is
/// being written into it (`slot`, taken out of the daemon's map of
/// directories being written) and, when nothing is, the state recorded for
/// it: the state to record, the file to record it in, and the answer; or
/// the refusal.
pub open spec fn append_done(
    old_slot: Option<Writing>,
    stored: Option<State>,
    name: Seq<char>,
    image: Seq<u8>,
    sigs: Seq<(u64, Seq<u8>)>,
    new_slot: Option<Writing>,
    res: Result<(State, String, Upload), Upload>,
) -> bool {
    match old_slot {
        Some(w) => new_slot matches Some(w2) && w2.image@ == w.image@ && w2.replacing
            == w.replacing && if w.image@ == image {
            &&& appended(entry_views(w.signatures@), sigs, entry_views(w2.signatures@))
            &&& res matches Ok((st, f, u)) && st.image@ == image && entry_views(st.signatures@)
                == entry_views(w2.signatures@) && f@ == name + ".state"@ && accepts(u, false)
        } else {
            &&& entry_views(w2.signatures@) == entry_views(w.signatures@)
            &&& res matches Err(u) && rejects(u, "already_uploading_different_version"@)
        },
        None => match stored {
            Some(st) => new_slot is None && if st.image@ == image {
                (res matches Ok((s, f, u)) && s.image@ == image && sorted_entries(
                    entry_views(s.signatures@),
                ) && entry_views(s.signatures@).to_multiset() == add_unique(
                    entry_views(st.signatures@),
                    sigs,
                ).to_multiset() && f@ == name + ".state"@ && accepts(u, false))
            } else {
                res matches Err(u) && rejects(u, "already_exists"@)
            },
            None => {
                &&& new_slot matches Some(w) && w.image@ == image && entry_views(w.signatures@)
                    == sigs && !w.replacing
                &&& res matches Ok((s, f, u)) && s.image@ == image && entry_views(s.signatures@)
                    == sigs && f@ == name + ".state"@ && accepts(u, true)
            },
        },
    }
}

/// Takes a request to append to the directory `name`: `slot` holds what
/// is being written into it, if anything, and is left holding what is
/// written afterwards; `stored` is the state recorded for the directory,
/// read only when nothing is being written (see `append_done`).
pub fn append_step(
    slot: &mut Option<Writing>,
    stored: Option<State>,
    name: &str,
    image: &ImageId,
    signatures: Vec<SignatureEntry>,
) -> (res: Result<(State, String, Upload), Upload>)
    ensures
        append_done(
            *old(slot),
            stored,
            name@,
            image@,
            entry_views(signatures@),
            *final(slot),
            res,
        ),
{
    match slot.take() {
        Some(mut w) => {
            let r = append_while_writing(&mut w, image, signatures);
            *slot = Some(w);
            match r {
                Ok(st) => Ok((st, state_file_name(name), accept(false))),
                Err(u) => Err(u),
            }
        },
        None => match append_to_stored(stored, image, signatures) {
            Ok((st, w)) => {
                let new = w.is_some();
                *slot = w;
                Ok((st, state_file_name(name), accept(new)))
            },
            Err(u) => Err(u),
        },
    }
}

/// What a request to replace the directory `name` does, as `append_done`
/// says of an append, except that an image replacing another is recorded in
/// the `.new.state` file, a different image recorded is replaced rather than
/// refused, and a directory being written keeps how it is written.
pub open spec fn replace_done(
    old_slot: Option<Writing>,
    stored: Option<State>,
    name: Seq<char>,
    image: Seq<u8>,
    sigs: Seq<(u64, Seq<u8>)>,
    new_slot: Option<Writing>,
    res: Result<(State, String, Upload), Upload>,
) -> bool {
    match old_slot {
        Some(w) => new_slot matches Some(w2) && w2.image@ == w.image@ && w2.replacing
            == w.replacing && if w.image@ == image {
            &&& appended(entry_views(w.signatures@), sigs, entry_views(w2.signatures@))
            &&& res matches Ok((st, f, u)) && st.image@ == image && entry_views(st.signatures@)
                == entry_views(w2.signatures@) && f@ == name + (if w.replacing {
                ".new.state"@
            } else {
                ".state"@
            }) && accepts(u, false)
        } else {
            &&& entry_views(w2.signatures@) == entry_views(w.signatures@)
            &&& res matches Err(u) && rejects(u, "already_uploading_different_version"@)
        },
        None => match stored {
            Some(st) => if st.image@ == image {
                &&& new_slot is None
                &&& res matches Ok((s, f, u)) && s.image@ == image && sorted_entries(
                    entry_views(s.signatures@),
                ) && entry_views(s.signatures@).to_multiset() == add_unique(
                    entry_views(st.signatures@),
                    sigs,
                ).to_multiset() && f@ == name + ".state"@ && accepts(u, false)
            } else {
                &&& new_slot matches Some(w) && w.image@ == image && entry_views(w.signatures@)
                    == sigs && w.replacing
                &&& res matches Ok((s, f, u)) && s.image@ == image && entry_views(s.signatures@)
                    == sigs && f@ == name + ".new.state"@ && accepts(u, true)
            },
            None => {
                &&& new_slot matches Some(w) && w.image@ == image && entry_views(w.signatures@)
                    == sigs && !w.replacing
                &&& res matches Ok((s, f, u)) && s.image@ == image && entry_views(s.signatures@)
                    == sigs && f@ == name + ".state"@ && accepts(u, true)
            },
        },
    }
}

/// Takes a request to replace the directory `name`, as `append_step` takes
/// an append (see `replace_done`).
pub fn replace_step(
    slot: &mut Option<Writing>,
    stored: Option<State>,
    name: &str,
    image: &ImageId,
    signatures: Vec<SignatureEntry>,
) -> (res: Result<(State, String, Upload), Upload>)
    ensures
        replace_done(
            *old(slot),
            stored,
            name@,
            image@,
            entry_views(signatures@),
            *final(slot),
            res,
        ),
{
    match slot.take() {
        Some(mut w) => {
            let r = replace_while_writing(&mut w, image, signatures);
            *slot = Some(w);
            match r {
                Ok((st, replacing)) => {
                    let f = if replacing {
                        new_state_file_name(name)
                    } else {
                        state_file_name(name)
                    };
                    Ok((st, f, accept(false)))
                },
                Err(u) => Err(u),
            }
        },
        None => {
            let (st, w, replacing) = replace_to_stored(stored, image, signatures);
            let new = w.is_some();
            *slot = w;
            let f = if replacing {
                new_state_file_name(name)
            } else {
                state_file_name(name)
            };
            Ok((st, f, accept(new)))
        },
    }
}

} // verus!

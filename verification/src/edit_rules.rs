//! Decisions of the command that edits one file of an uploaded directory:
//! which file it edits, which editor it runs, and whether the file changed.
use vstd::prelude::*;

use crate::commit_plan::{file_name, last_name};
use crate::index::PathPart;

verus! {

/// Why an edit cannot start.
#[derive(Debug, PartialEq, Eq)]
pub enum EditError {
    /// No host name was given to reach the cluster.
    NoCluster,
    /// The path of the file to edit does not end with a name.
    NoFileName,
}

/// The name of the file to edit, which names the temporary copy: it needs
/// a cluster to reach, and a path that ends with a name.
pub fn edit_target(clusters: usize, file: &Vec<PathPart>) -> (res: Result<String, EditError>)
    ensures
        clusters == 0 ==> res == Err::<String, EditError>(EditError::NoCluster),
        clusters > 0 && file_name(file@) is None ==> res == Err::<String, EditError>(
            EditError::NoFileName,
        ),
        clusters > 0 && file_name(file@) is Some ==> (res matches Ok(n) && file_name(file@)
            == Some(n@)),
{
    if clusters == 0 {
        return Err(EditError::NoCluster);
    }
    let n = file.len();
    if n == 0 {
        return Err(EditError::NoFileName);
    }
    match &file[n - 1] {
        PathPart::Normal(_) => Ok(last_name(file)),
        _ => Err(EditError::NoFileName),
    }
}

/// Which editor is run.
#[derive(Debug, PartialEq, Eq)]
pub enum EditorPick {
    /// The program named by this environment variable.
    Variable(&'static str),
    /// The first of `fallback_editors` that exists.
    Fallbacks,
}

/// The editor to run, by which of the variables `CIRUELA_EDITOR`, `VISUAL`
/// and `EDITOR` are set: the first that is, in that order.
pub fn pick_editor(ciruela_editor: bool, visual: bool, editor: bool) -> (res: EditorPick)
    ensures
        ciruela_editor ==> (res matches EditorPick::Variable(v) && v@ == "CIRUELA_EDITOR"@),
        !ciruela_editor && visual ==> (res matches EditorPick::Variable(v) && v@ == "VISUAL"@),
        !ciruela_editor && !visual && editor ==> (res matches EditorPick::Variable(v) && v@
            == "EDITOR"@),
        !ciruela_editor && !visual && !editor ==> res == EditorPick::Fallbacks,
{
    if ciruela_editor {
        EditorPick::Variable("CIRUELA_EDITOR")
    } else if visual {
        EditorPick::Variable("VISUAL")
    } else if editor {
        EditorPick::Variable("EDITOR")
    } else {
        EditorPick::Fallbacks
    }
}

/// The editors tried, in order, when no variable names one.
pub fn fallback_editors() -> (res: Vec<&'static str>)
    ensures
        res@.len() == 4,
        res@[0]@ == "vim"@ && res@[1]@ == "vi"@ && res@[2]@ == "nano"@ && res@[3]@ == "editor"@,
{
    let mut v: Vec<&'static str> = Vec::new();
    v.push("vim");
    v.push("vi");
    v.push("nano");
    v.push("editor");
    v
}

/// The new contents of the edited file, or `None` when the editor left it
/// as it was.
pub fn changed(before: &Vec<u8>, after: Vec<u8>) -> (res: Option<Vec<u8>>)
    ensures
        res is None <==> after@ == before@,
        res matches Some(v) ==> v@ == after@,
{
    if after.len() != before.len() {
        return Some(after);
    }
    let mut i: usize = 0;
    while i < after.len()
        invariant
            i <= after.len(),
            after.len() == before.len(),
            forall|j: int| 0 <= j < i ==> after@[j] == before@[j],
        decreases after.len() - i,
    {
        if after[i] != before[i] {
            return Some(after);
        }
        i = i + 1;
    }
    assert(after@ =~= before@);
    None
}

} // verus!

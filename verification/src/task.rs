//! What a build task decides: where its outputs go, and which of them may be
//! submitted.

use vstd::prelude::*;
use vstd::utf8::decode_utf8;
use vstd::utf8::encode_utf8;
use vstd::utf8::valid_utf8;

use crate::path::Component;
use crate::path::SLASH;
use crate::path::component_views;
use crate::path::components;
use crate::path::components_of;
use crate::path::is_absolute;
use crate::path::is_safe_relative;
use crate::path::join;
use crate::path::joined;
use crate::path::law_safe_path_stays_below;
use crate::path::law_safe_paths_by_their_bytes;
use crate::path::parent;
use crate::path::parent_of;
use crate::path::same_components;
use crate::path::segments;
use crate::path::starts_here;
use crate::path::steps;
use crate::text::appended;

verus! {

/// The text that `String::from_utf8_lossy` makes of bytes that are not UTF-8.
pub uninterp spec fn lossy_text(bytes: Seq<u8>) -> Seq<char>;

/// `String::from_utf8_lossy`: bytes that are UTF-8 are the text that they encode;
/// what is put in place of other bytes is named, not stated.
#[verifier::external_body]
fn lossy(bytes: &[u8]) -> (r: String)
    ensures
        r@ == if valid_utf8(bytes@) {
            decode_utf8(bytes@)
        } else {
            lossy_text(bytes@)
        },
{
    String::from_utf8_lossy(bytes).into_owned()
}

/// A path as text: the text that it encodes, or the nearest to it that there is.
pub open spec fn path_text(path: Seq<u8>) -> Seq<char> {
    if valid_utf8(path) {
        decode_utf8(path)
    } else {
        lossy_text(path)
    }
}

/// A file that a build task is to produce.
#[derive(Debug)]
pub struct OutputFile {
    /// Where the build leaves the file.
    pub build_path: Vec<u8>,
    /// Where the file stands within the output.
    pub rel_path: Option<Vec<u8>>,
    /// The output that the file belongs to.
    pub output_name: Option<String>,
}

/// The model of an [`OutputFile`].
pub struct OutputFileView {
    pub build_path: Seq<u8>,
    pub rel_path: Option<Seq<u8>>,
    pub output_name: Option<Seq<char>>,
}

impl View for OutputFile {
    type V = OutputFileView;

    open spec fn view(&self) -> OutputFileView {
        OutputFileView {
            build_path: self.build_path@,
            rel_path: match self.rel_path {
                Some(path) => Some(path@),
                None => None,
            },
            output_name: match self.output_name {
                Some(name) => Some(name@),
                None => None,
            },
        }
    }
}

/// Why an output is not submitted.
#[derive(Debug)]
pub enum TaskError {
    /// The file belongs to no output.
    NoOutputName { build_path: Vec<u8> },
    /// The file has no place in its output.
    NoRelPath { name: String },
    /// The place of the file is an absolute path.
    AbsoluteRelPath { name: String, path: Vec<u8> },
    /// The place of the file leads out of the output.
    UnsafeRelPath { name: String, path: Vec<u8> },
}

/// The model of a [`TaskError`].
pub enum TaskErrorView {
    NoOutputName(Seq<u8>),
    NoRelPath(Seq<char>),
    AbsoluteRelPath(Seq<char>, Seq<u8>),
    UnsafeRelPath(Seq<char>, Seq<u8>),
}

impl View for TaskError {
    type V = TaskErrorView;

    open spec fn view(&self) -> TaskErrorView {
        match self {
            TaskError::NoOutputName { build_path } => TaskErrorView::NoOutputName(build_path@),
            TaskError::NoRelPath { name } => TaskErrorView::NoRelPath(name@),
            TaskError::AbsoluteRelPath { name, path } => TaskErrorView::AbsoluteRelPath(
                name@,
                path@,
            ),
            TaskError::UnsafeRelPath { name, path } => TaskErrorView::UnsafeRelPath(name@, path@),
        }
    }
}

/// The error in words.
pub open spec fn task_message(error: TaskErrorView) -> Seq<char> {
    match error {
        TaskErrorView::NoOutputName(build_path) => "output "@ + path_text(build_path)
            + " has no output name"@,
        TaskErrorView::NoRelPath(name) => "output "@ + name + " has no rel_path"@,
        TaskErrorView::AbsoluteRelPath(name, path) => "output "@ + name
            + " has absolute rel_path: "@ + path_text(path),
        TaskErrorView::UnsafeRelPath(name, path) => "output "@ + name
            + " has unsafe rel_path component in "@ + path_text(path),
    }
}

impl TaskError {
    /// The error in words; paths are shown as text as far as they are text.
    pub fn message(&self) -> (r: String)
        ensures
            r@ == task_message(self@),
            match self {
                TaskError::NoOutputName { build_path } => r@ == "output "@ + path_text(build_path@)
                    + " has no output name"@,
                TaskError::NoRelPath { name } => r@ == "output "@ + name@ + " has no rel_path"@,
                TaskError::AbsoluteRelPath { name, path } => r@ == "output "@ + name@
                    + " has absolute rel_path: "@ + path_text(path@),
                TaskError::UnsafeRelPath { name, path } => r@ == "output "@ + name@
                    + " has unsafe rel_path component in "@ + path_text(path@),
            },
    {
        match self {
            TaskError::NoOutputName { build_path } => {
                let text = lossy(build_path.as_slice());
                about_output(text.as_str(), " has no output name")
            },
            TaskError::NoRelPath { name } => about_output(name.as_str(), " has no rel_path"),
            TaskError::AbsoluteRelPath { name, path } => {
                let intro = about_output(name.as_str(), " has absolute rel_path: ");
                appended(intro.as_str(), lossy(path.as_slice()).as_str())
            },
            TaskError::UnsafeRelPath { name, path } => {
                let intro = about_output(name.as_str(), " has unsafe rel_path component in ");
                appended(intro.as_str(), lossy(path.as_slice()).as_str())
            },
        }
    }
}

/// Something said of an output.
fn about_output(output: &str, what: &str) -> (r: String)
    ensures
        r@ == "output "@ + output@ + what@,
{
    let subject = appended("output ", output);
    appended(subject.as_str(), what)
}

/// A copy of a path.
fn copied(path: &[u8]) -> (r: Vec<u8>)
    ensures
        r@ == path@,
{
    let mut copy: Vec<u8> = Vec::new();
    copy.extend_from_slice(path);
    assert(copy@ =~= path@);
    copy
}

/// What is wrong with the place `path` of a file in the output `name`, if anything.
pub open spec fn rel_path_error(path: Seq<u8>, name: Seq<char>) -> Option<TaskErrorView> {
    if is_absolute(path) {
        Some(TaskErrorView::AbsoluteRelPath(name, path))
    } else if !is_safe_relative(path) {
        Some(TaskErrorView::UnsafeRelPath(name, path))
    } else {
        None
    }
}

/// Rejects relative paths that would escape the staging directory when they are
/// joined to it: an absolute path replaces the base, and two dots walk above it.
pub fn ensure_safe_relative(p: &[u8], name: &str) -> (r: Result<(), TaskError>)
    ensures
        match r {
            Ok(()) => rel_path_error(p@, name@) is None,
            Err(e) => rel_path_error(p@, name@) == Some(e@),
        },
        r is Ok <==> !(p@.len() > 0 && p@[0] == 47) && (forall|i: int|
            0 <= i < components_of(p@).len() ==> {
                ||| (#[trigger] components_of(p@)[i]) is Normal
                ||| components_of(p@)[i] is CurDir
            }),
        match r {
            Ok(()) => true,
            Err(TaskError::AbsoluteRelPath { name: output, path }) => {
                &&& p@.len() > 0 && p@[0] == 47
                &&& output@ == name@
                &&& path@ == p@
            },
            Err(TaskError::UnsafeRelPath { name: output, path }) => {
                &&& !(p@.len() > 0 && p@[0] == 47)
                &&& output@ == name@
                &&& path@ == p@
            },
            Err(_) => false,
        },
{
    if p.len() > 0 && p[0] == SLASH {
        return Err(TaskError::AbsoluteRelPath { name: name.to_owned(), path: copied(p) });
    }
    let all = components(p);
    let mut i: usize = 0;
    while i < all.len()
        invariant
            i <= all@.len(),
            component_views(all@) == components_of(p@),
            !is_absolute(p@),
            forall|j: int|
                0 <= j < i ==> {
                    ||| (#[trigger] components_of(p@)[j]) is Normal
                    ||| components_of(p@)[j] is CurDir
                },
        decreases all@.len() - i,
    {
        assert(components_of(p@)[i as int] == all@[i as int]@);
        match all[i] {
            Component::Normal(_) | Component::CurDir => {},
            _ => {
                return Err(TaskError::UnsafeRelPath { name: name.to_owned(), path: copied(p) });
            },
        }
        i += 1;
    }
    Ok(())
}

/// One file to copy, and the directory that has to be there first.
#[derive(Debug)]
pub struct CopyStep {
    /// The directory that the copy goes to, where it goes to one.
    pub parent: Option<Vec<u8>>,
    /// What is copied.
    pub from: Vec<u8>,
    /// Where the copy goes.
    pub to: Vec<u8>,
}

/// The model of a [`CopyStep`].
pub struct CopyStepView {
    pub parent: Option<Seq<u8>>,
    pub from: Seq<u8>,
    pub to: Seq<u8>,
}

impl View for CopyStep {
    type V = CopyStepView;

    open spec fn view(&self) -> CopyStepView {
        CopyStepView {
            parent: match self.parent {
                Some(parent) => Some(parent@),
                None => None,
            },
            from: self.from@,
            to: self.to@,
        }
    }
}

/// The step that copies `from` to `to`.
pub open spec fn copy_of(from: Seq<u8>, to: Seq<u8>) -> CopyStepView {
    CopyStepView { parent: parent_of(to), from, to }
}

/// The step that copies one file, by which a build output also gets to its place in
/// the store where there is no builder to submit it to.
pub fn copy_step(from: &[u8], to: Vec<u8>) -> (r: CopyStep)
    ensures
        r@ == copy_of(from@, to@),
        r.from@ == from@,
        r.to@ == to@,
        match r.parent {
            Some(dir) => parent_of(to@) == Some(dir@),
            None => parent_of(to@) is None,
        },
{
    CopyStep { parent: parent(to.as_slice()), from: copied(from), to }
}

/// The name of the directory in which outputs are staged.
pub const STAGING_DIR: &'static str = "nix-ninja-task-outputs";

/// Where outputs are staged: below the top of the build where that is known, and
/// else below the directory for temporary files.
pub fn staging_root(build_top: Option<&[u8]>, temp_dir: &[u8]) -> (r: Vec<u8>)
    ensures
        r@ == joined(
            match build_top {
                Some(top) => top@,
                None => temp_dir@,
            },
            encode_utf8(STAGING_DIR@),
        ),
        r@ == joined(
            if build_top is Some {
                build_top->0@
            } else {
                temp_dir@
            },
            encode_utf8("nix-ninja-task-outputs"@),
        ),
{
    match build_top {
        Some(top) => join(top, STAGING_DIR.as_bytes()),
        None => join(temp_dir, STAGING_DIR.as_bytes()),
    }
}

/// An output that is ready to be staged: a directory that is to hold the file at its
/// place, and nothing else.
#[derive(Debug)]
pub struct StagedOutput {
    /// The name of the output.
    pub name: String,
    /// The directory that becomes the output.
    pub staging: Vec<u8>,
    /// The copy of the file into it.
    pub copy: CopyStep,
}

/// The model of a [`StagedOutput`].
pub struct StagedOutputView {
    pub name: Seq<char>,
    pub staging: Seq<u8>,
    pub copy: CopyStepView,
}

impl View for StagedOutput {
    type V = StagedOutputView;

    open spec fn view(&self) -> StagedOutputView {
        StagedOutputView { name: self.name@, staging: self.staging@, copy: self.copy@ }
    }
}

/// How a file is staged below `root`, or why it is not.
pub open spec fn staged(root: Seq<u8>, output: OutputFileView) -> Result<
    StagedOutputView,
    TaskErrorView,
> {
    match (output.output_name, output.rel_path) {
        (None, _) => Err(TaskErrorView::NoOutputName(output.build_path)),
        (Some(name), None) => Err(TaskErrorView::NoRelPath(name)),
        (Some(name), Some(rel_path)) => match rel_path_error(rel_path, name) {
            Some(error) => Err(error),
            None => {
                let staging = joined(root, encode_utf8(name));
                Ok(
                    StagedOutputView {
                        name,
                        staging,
                        copy: copy_of(output.build_path, joined(staging, rel_path)),
                    },
                )
            },
        },
    }
}

/// Works out how a file is staged below `root`.
pub fn stage_output(root: &[u8], output: &OutputFile) -> (r: Result<StagedOutput, TaskError>)
    ensures
        match r {
            Ok(value) => staged(root@, output@) == Ok::<StagedOutputView, TaskErrorView>(value@),
            Err(e) => staged(root@, output@) == Err::<StagedOutputView, TaskErrorView>(e@),
        },
        r is Ok <==> output.output_name is Some && output.rel_path is Some && {
            let p = output.rel_path->0@;
            !(p.len() > 0 && p[0] == 47) && (forall|i: int|
                0 <= i < components_of(p).len() ==> {
                    ||| (#[trigger] components_of(p)[i]) is Normal
                    ||| components_of(p)[i] is CurDir
                })
        },
        r matches Ok(plan) ==> {
            let to = joined(plan.staging@, output.rel_path->0@);
            &&& plan.name@ == output.output_name->0@
            &&& plan.staging@ == joined(root@, encode_utf8(output.output_name->0@))
            &&& plan.copy.from@ == output.build_path@
            &&& plan.copy.to@ == to
            &&& match plan.copy.parent {
                Some(dir) => parent_of(to) == Some(dir@),
                None => parent_of(to) is None,
            }
        },
        r matches Err(e) ==> match e {
            TaskError::NoOutputName { build_path } => {
                &&& output.output_name is None
                &&& build_path@ == output.build_path@
            },
            TaskError::NoRelPath { name } => {
                &&& output.output_name is Some && name@ == output.output_name->0@
                &&& output.rel_path is None
            },
            TaskError::AbsoluteRelPath { name, path } => {
                &&& output.output_name is Some && name@ == output.output_name->0@
                &&& output.rel_path is Some && path@ == output.rel_path->0@
                &&& path@.len() > 0 && path@[0] == 47
            },
            TaskError::UnsafeRelPath { name, path } => {
                &&& output.output_name is Some && name@ == output.output_name->0@
                &&& output.rel_path is Some && path@ == output.rel_path->0@
                &&& !(path@.len() > 0 && path@[0] == 47)
            },
        },
{
    let name: &String = match &output.output_name {
        Some(name) => name,
        None => {
            return Err(
                TaskError::NoOutputName { build_path: copied(output.build_path.as_slice()) },
            );
        },
    };
    let rel_path: &Vec<u8> = match &output.rel_path {
        Some(rel_path) => rel_path,
        None => {
            return Err(TaskError::NoRelPath { name: name.clone() });
        },
    };
    match ensure_safe_relative(rel_path.as_slice(), name.as_str()) {
        Ok(()) => {},
        Err(e) => {
            return Err(e);
        },
    }
    let staging = join(root, name.as_str().as_bytes());
    let dest = join(staging.as_slice(), rel_path.as_slice());
    let copy = copy_step(output.build_path.as_slice(), dest);
    Ok(StagedOutput { name: name.clone(), staging, copy })
}

/// The build paths of outputs.
pub open spec fn build_paths(outputs: Seq<OutputFile>) -> Seq<Seq<u8>> {
    Seq::new(outputs.len(), |i: int| outputs[i].build_path@)
}

/// One of the directories goes the same steps as `dir`.
pub open spec fn covers(dirs: Seq<Seq<u8>>, dir: Seq<u8>) -> bool {
    exists|i: int|
        0 <= i < dirs.len() && components_of(#[trigger] dirs[i]) == components_of(dir)
}

/// The directories that the files at `paths` stand in, each once, in the order in
/// which they are first needed.
pub open spec fn dirs_of(paths: Seq<Seq<u8>>) -> Seq<Seq<u8>>
    decreases paths.len(),
{
    if paths.len() == 0 {
        Seq::empty()
    } else {
        let before = dirs_of(paths.drop_last());
        match parent_of(paths.last()) {
            Some(dir) => if covers(before, dir) {
                before
            } else {
                before.push(dir)
            },
            None => before,
        }
    }
}

/// The views of paths.
pub open spec fn path_views(paths: Seq<Vec<u8>>) -> Seq<Seq<u8>> {
    Seq::new(paths.len(), |i: int| paths[i]@)
}

/// Whether one of the directories goes the same steps as `dir`.
fn is_covered(dirs: &Vec<Vec<u8>>, dir: &[u8]) -> (r: bool)
    ensures
        r == covers(path_views(dirs@), dir@),
{
    let wanted = components(dir);
    let mut i: usize = 0;
    while i < dirs.len()
        invariant
            i <= dirs@.len(),
            component_views(wanted@) == components_of(dir@),
            forall|j: int|
                0 <= j < i ==> components_of(#[trigger] path_views(dirs@)[j]) != components_of(
                    dir@,
                ),
        decreases dirs@.len() - i,
    {
        let there = components(dirs[i].as_slice());
        assert(path_views(dirs@)[i as int] == dirs@[i as int]@);
        if same_components(&there, &wanted) {
            return true;
        }
        i += 1;
    }
    false
}

/// The directories that have to be made before the build can leave its outputs
/// there.
pub fn create_output_dirs(outputs: &Vec<OutputFile>) -> (r: Vec<Vec<u8>>)
    ensures
        path_views(r@) == dirs_of(build_paths(outputs@)),
        forall|i: int|
            0 <= i < outputs@.len() && parent_of((#[trigger] outputs@[i]).build_path@) is Some
                ==> exists|k: int|
                0 <= k < r@.len() && components_of((#[trigger] r@[k])@) == components_of(
                    parent_of(outputs@[i].build_path@)->0,
                ),
        forall|k: int|
            0 <= k < r@.len() ==> exists|i: int|
                0 <= i < outputs@.len() && parent_of((#[trigger] outputs@[i]).build_path@) == Some(
                    (#[trigger] r@[k])@,
                ),
        forall|j: int, k: int|
            0 <= j < k < r@.len() ==> components_of((#[trigger] r@[j])@) != components_of(
                (#[trigger] r@[k])@,
            ),
{
    let mut dirs: Vec<Vec<u8>> = Vec::new();
    let ghost paths = build_paths(outputs@);
    let mut i: usize = 0;
    assert(paths.take(0) =~= Seq::empty());
    assert(path_views(dirs@) =~= dirs_of(paths.take(0)));
    while i < outputs.len()
        invariant
            i <= outputs@.len(),
            paths == build_paths(outputs@),
            path_views(dirs@) == dirs_of(paths.take(i as int)),
        decreases outputs@.len() - i,
    {
        assert(paths.take(i + 1).drop_last() =~= paths.take(i as int));
        assert(paths.take(i + 1).last() == outputs@[i as int].build_path@);
        let ghost before = path_views(dirs@);
        match parent(outputs[i].build_path.as_slice()) {
            Some(dir) => {
                if !is_covered(&dirs, dir.as_slice()) {
                    dirs.push(dir);
                    assert(path_views(dirs@) =~= before.push(dir@));
                }
            },
            None => {},
        }
        i += 1;
    }
    assert(paths.take(i as int) =~= paths);
    proof {
        lemma_dirs_of_outputs(outputs@, dirs@);
    }
    dirs
}

/// The shell that runs the command of a task.
pub const SHELL: &'static str = "/bin/sh";

/// The arguments with which the shell runs a command line.
pub fn shell_args(cmdline: &str) -> (r: Vec<String>)
    ensures
        r@.len() == 2,
        r@[0]@ == "-c"@,
        r@[1]@ == cmdline@,
{
    let mut args: Vec<String> = Vec::new();
    args.push("-c".to_owned());
    args.push(cmdline.to_owned());
    args
}

/// The exit code of the command: a command that was ended by a signal has none of
/// its own, and counts as failed.
pub fn exit_code(code: Option<i32>) -> (r: i32)
    ensures
        r == match code {
            Some(code) => code,
            None => 1,
        },
{
    match code {
        Some(code) => code,
        None => 1,
    }
}

/// A file that is staged stays in its staging directory: its place has the
/// directory's components in front, and nothing but names behind them. Only where the
/// directory is the empty path may a dot stand in front.
pub proof fn law_staged_output_stays_in_staging(root: Seq<u8>, output: OutputFileView)
    requires
        staged(root, output) is Ok,
        staged(root, output)->Ok_0.staging.len() > 0 || !starts_here(output.rel_path->0),
    ensures
        ({
            let plan = staged(root, output)->Ok_0;
            let names = steps(segments(output.rel_path->0));
            &&& components_of(plan.copy.to) == components_of(plan.staging) + names
            &&& forall|i: int| 0 <= i < names.len() ==> (#[trigger] names[i]) is Normal
        }),
{
    let plan = staged(root, output)->Ok_0;
    law_safe_path_stays_below(plan.staging, output.rel_path->0);
}

/// Every file has the directory it stands in among those that are made, no two of
/// which are the same, and none of which is made for nothing.
pub proof fn law_output_dirs_are_distinct_and_complete(paths: Seq<Seq<u8>>)
    ensures
        forall|i: int|
            0 <= i < paths.len() && parent_of(#[trigger] paths[i]) is Some ==> covers(
                dirs_of(paths),
                parent_of(paths[i])->0,
            ),
        forall|i: int, j: int|
            0 <= i < j < dirs_of(paths).len() ==> components_of(#[trigger] dirs_of(paths)[i])
                != components_of(#[trigger] dirs_of(paths)[j]),
        forall|k: int|
            0 <= k < dirs_of(paths).len() ==> exists|i: int|
                0 <= i < paths.len() && parent_of(#[trigger] paths[i]) == Some(
                    #[trigger] dirs_of(paths)[k],
                ),
        forall|i: int|
            0 <= i < paths.len() && parent_of(#[trigger] paths[i]) is Some ==> exists|k: int|
                0 <= k < dirs_of(paths).len() && components_of(#[trigger] dirs_of(paths)[k])
                    == components_of(parent_of(paths[i])->0),
    decreases paths.len(),
{
    if paths.len() > 0 {
        let shorter = paths.drop_last();
        let before = dirs_of(shorter);
        let all = dirs_of(paths);
        law_output_dirs_are_distinct_and_complete(shorter);
        assert forall|i: int| 0 <= i < paths.len() && parent_of(#[trigger] paths[i]) is Some implies covers(
            all,
            parent_of(paths[i])->0,
        ) by {
            let dir = parent_of(paths[i])->0;
            if i < shorter.len() {
                assert(shorter[i] == paths[i]);
                assert(covers(before, dir));
                let k = choose|k: int|
                    0 <= k < before.len() && components_of(#[trigger] before[k]) == components_of(
                        dir,
                    );
                assert(all[k] == before[k]);
            } else if !covers(before, dir) {
                assert(all[all.len() - 1] == dir);
            }
        }
        assert forall|i: int| 0 <= i < paths.len() && parent_of(#[trigger] paths[i]) is Some implies exists|
            k: int,
        |
            0 <= k < all.len() && components_of(#[trigger] all[k]) == components_of(
                parent_of(paths[i])->0,
            ) by {
            assert(covers(all, parent_of(paths[i])->0));
        }
        assert forall|i: int, j: int| 0 <= i < j < all.len() implies components_of(
            #[trigger] all[i],
        ) != components_of(#[trigger] all[j]) by {
            if j < before.len() {
                assert(all[i] == before[i] && all[j] == before[j]);
            } else {
                assert(all[i] == before[i]);
            }
        }
        assert forall|k: int| 0 <= k < all.len() implies exists|i: int|
            0 <= i < paths.len() && parent_of(#[trigger] paths[i]) == Some(#[trigger] all[k]) by {
            if k < before.len() {
                assert(all[k] == before[k]);
                let i = choose|i: int|
                    0 <= i < shorter.len() && parent_of(#[trigger] shorter[i]) == Some(before[k]);
                assert(paths[i] == shorter[i]);
            } else {
                assert(parent_of(paths[paths.len() - 1]) == Some(all[k]));
            }
        }
    }
}

proof fn lemma_dirs_of_outputs(outputs: Seq<OutputFile>, dirs: Seq<Vec<u8>>)
    requires
        path_views(dirs) == dirs_of(build_paths(outputs)),
    ensures
        forall|i: int|
            0 <= i < outputs.len() && parent_of((#[trigger] outputs[i]).build_path@) is Some
                ==> exists|k: int|
                0 <= k < dirs.len() && components_of((#[trigger] dirs[k])@) == components_of(
                    parent_of(outputs[i].build_path@)->0,
                ),
        forall|k: int|
            0 <= k < dirs.len() ==> exists|i: int|
                0 <= i < outputs.len() && parent_of((#[trigger] outputs[i]).build_path@) == Some(
                    (#[trigger] dirs[k])@,
                ),
        forall|j: int, k: int|
            0 <= j < k < dirs.len() ==> components_of((#[trigger] dirs[j])@) != components_of(
                (#[trigger] dirs[k])@,
            ),
{
    let paths = build_paths(outputs);
    let views = path_views(dirs);
    law_output_dirs_are_distinct_and_complete(paths);
    assert forall|i: int|
        0 <= i < outputs.len() && parent_of((#[trigger] outputs[i]).build_path@) is Some implies exists|
        k: int,
    |
        0 <= k < dirs.len() && components_of((#[trigger] dirs[k])@) == components_of(
            parent_of(outputs[i].build_path@)->0,
        ) by {
        assert(paths[i] == outputs[i].build_path@);
        let k = choose|k: int|
            0 <= k < views.len() && components_of(#[trigger] views[k]) == components_of(
                parent_of(paths[i])->0,
            );
        assert(views[k] == dirs[k]@);
    }
    assert forall|k: int| 0 <= k < dirs.len() implies exists|i: int|
        0 <= i < outputs.len() && parent_of((#[trigger] outputs[i]).build_path@) == Some(
            (#[trigger] dirs[k])@,
        ) by {
        assert(views[k] == dirs[k]@);
        let i = choose|i: int|
            0 <= i < paths.len() && parent_of(#[trigger] paths[i]) == Some(views[k]);
        assert(paths[i] == outputs[i].build_path@);
    }
    assert forall|j: int, k: int| 0 <= j < k < dirs.len() implies components_of(
        (#[trigger] dirs[j])@,
    ) != components_of((#[trigger] dirs[k])@) by {
        assert(views[j] == dirs[j]@ && views[k] == dirs[k]@);
    }
}

/// Directories are made in the order in which they are needed: more files add directories
/// behind those that are made already, and a file adds at most the directory it stands in.
pub proof fn law_output_dirs_grow_with_the_files(paths: Seq<Seq<u8>>, path: Seq<u8>)
    ensures
        dirs_of(Seq::empty()) == Seq::<Seq<u8>>::empty(),
        parent_of(path) is None ==> dirs_of(paths.push(path)) == dirs_of(paths),
        parent_of(path) is Some && (exists|k: int|
            0 <= k < dirs_of(paths).len() && components_of(#[trigger] dirs_of(paths)[k])
                == components_of(parent_of(path)->0)) ==> dirs_of(paths.push(path)) == dirs_of(
            paths,
        ),
        parent_of(path) is Some && !(exists|k: int|
            0 <= k < dirs_of(paths).len() && components_of(#[trigger] dirs_of(paths)[k])
                == components_of(parent_of(path)->0)) ==> dirs_of(paths.push(path)) == dirs_of(
            paths,
        ).push(parent_of(path)->0),
{
    assert(paths.push(path).drop_last() =~= paths);
}

/// Files and paths are modelled one by one.
pub proof fn law_model_of_paths(outputs: Seq<OutputFile>, paths: Seq<Vec<u8>>, i: int)
    ensures
        build_paths(outputs).len() == outputs.len(),
        0 <= i < outputs.len() ==> build_paths(outputs)[i] == outputs[i].build_path@,
        path_views(paths).len() == paths.len(),
        0 <= i < paths.len() ==> path_views(paths)[i] == paths[i]@,
{
}

/// The model of an output file has what the file has.
pub proof fn law_model_of_an_output(output: OutputFile)
    ensures
        output@.build_path == output.build_path@,
        match output.rel_path {
            Some(path) => output@.rel_path == Some(path@),
            None => output@.rel_path is None,
        },
        match output.output_name {
            Some(name) => output@.output_name == Some(name@),
            None => output@.output_name is None,
        },
{
}

/// The model of a staged output has what the output has.
pub proof fn law_model_of_a_staged_output(output: StagedOutput)
    ensures
        output@.name == output.name@,
        output@.staging == output.staging@,
        output@.copy.from == output.copy.from@,
        output@.copy.to == output.copy.to@,
        output.copy@ == output@.copy,
        match output.copy.parent {
            Some(dir) => output@.copy.parent == Some(dir@),
            None => output@.copy.parent is None,
        },
{
}

/// The model of an error has what the error has.
pub proof fn law_model_of_a_task_error(error: TaskError)
    ensures
        match error {
            TaskError::NoOutputName { build_path } => error@ == TaskErrorView::NoOutputName(
                build_path@,
            ),
            TaskError::NoRelPath { name } => error@ == TaskErrorView::NoRelPath(name@),
            TaskError::AbsoluteRelPath { name, path } => error@ == TaskErrorView::AbsoluteRelPath(
                name@,
                path@,
            ),
            TaskError::UnsafeRelPath { name, path } => error@ == TaskErrorView::UnsafeRelPath(
                name@,
                path@,
            ),
        },
{
}

/// A path is shown as the text that it encodes, and only where it encodes none as the text
/// that is nearest to it.
pub proof fn law_paths_as_text(path: Seq<u8>)
    ensures
        valid_utf8(path) ==> path_text(path) == decode_utf8(path),
        !valid_utf8(path) ==> path_text(path) == lossy_text(path),
{
}

/// A place in an output is refused exactly where it starts with a slash or has a component
/// that is neither a name nor the current directory. Every other place is accepted, of
/// whatever length, and what is refused is named with the output.
pub proof fn law_safe_places_are_accepted(path: Seq<u8>, name: Seq<char>)
    ensures
        path.len() > 0 && path[0] == 47 ==> rel_path_error(path, name) == Some(
            TaskErrorView::AbsoluteRelPath(name, path),
        ),
        !(path.len() > 0 && path[0] == 47) ==> (rel_path_error(path, name) is None <==> forall|
            i: int,
        |
            0 <= i < components_of(path).len() ==> {
                ||| (#[trigger] components_of(path)[i]) is Normal
                ||| components_of(path)[i] is CurDir
            }),
        !(path.len() > 0 && path[0] == 47) && rel_path_error(path, name) is Some ==> rel_path_error(
            path,
            name,
        ) == Some(TaskErrorView::UnsafeRelPath(name, path)),
{
}

/// The same by the bytes of the path: a place is accepted exactly where it does not start
/// with a slash and no two dots make up a whole name in it.
pub proof fn law_safe_places_by_their_bytes(path: Seq<u8>, name: Seq<char>)
    ensures
        rel_path_error(path, name) is None <==> {
            &&& !(path.len() > 0 && path[0] == 47)
            &&& forall|i: int|
                0 <= i && i + 2 <= path.len() && #[trigger] path[i] == 46 && path[i + 1] == 46 && (i
                    == 0 || path[i - 1] == 47) ==> i + 2 < path.len() && path[i + 2] != 47
        },
{
    law_safe_paths_by_their_bytes(path);
}

/// An output that has a name and a safe place is staged: in the directory of its name below
/// the root, with its file copied from where the build left it to its place there.
pub proof fn law_safe_outputs_are_staged(
    root: Seq<u8>,
    build_path: Seq<u8>,
    name: Seq<char>,
    rel_path: Seq<u8>,
)
    requires
        !(rel_path.len() > 0 && rel_path[0] == 47),
        forall|i: int|
            0 <= i < components_of(rel_path).len() ==> {
                ||| (#[trigger] components_of(rel_path)[i]) is Normal
                ||| components_of(rel_path)[i] is CurDir
            },
    ensures
        ({
            let output = OutputFileView {
                build_path,
                rel_path: Some(rel_path),
                output_name: Some(name),
            };
            let plan = staged(root, output)->Ok_0;
            &&& staged(root, output) is Ok
            &&& plan.name == name
            &&& plan.staging == joined(root, encode_utf8(name))
            &&& plan.copy.from == build_path
            &&& plan.copy.to == joined(joined(root, encode_utf8(name)), rel_path)
            &&& plan.copy.parent == parent_of(joined(joined(root, encode_utf8(name)), rel_path))
        }),
{
}

/// An output is refused for what it lacks: first a name, then a place, then a place that
/// does not lead out.
pub proof fn law_other_outputs_are_refused(
    root: Seq<u8>,
    build_path: Seq<u8>,
    name: Seq<char>,
    rel_path: Seq<u8>,
    any: Option<Seq<u8>>,
)
    ensures
        staged(root, OutputFileView { build_path, rel_path: any, output_name: None }) == Err::<
            StagedOutputView,
            TaskErrorView,
        >(TaskErrorView::NoOutputName(build_path)),
        staged(root, OutputFileView { build_path, rel_path: None, output_name: Some(name) })
            == Err::<StagedOutputView, TaskErrorView>(TaskErrorView::NoRelPath(name)),
        rel_path.len() > 0 && rel_path[0] == 47 ==> staged(
            root,
            OutputFileView { build_path, rel_path: Some(rel_path), output_name: Some(name) },
        ) == Err::<StagedOutputView, TaskErrorView>(
            TaskErrorView::AbsoluteRelPath(name, rel_path),
        ),
        !(rel_path.len() > 0 && rel_path[0] == 47) && (exists|i: int|
            0 <= i < components_of(rel_path).len() && !(
            (#[trigger] components_of(rel_path)[i]) is Normal || components_of(
                rel_path,
            )[i] is CurDir)) ==> staged(
            root,
            OutputFileView { build_path, rel_path: Some(rel_path), output_name: Some(name) },
        ) == Err::<StagedOutputView, TaskErrorView>(TaskErrorView::UnsafeRelPath(name, rel_path)),
{
}

/// The names that a task uses: the shell that runs its command, and the directory in which
/// its outputs are staged.
pub proof fn law_names_of_a_task()
    ensures
        SHELL@ == "/bin/sh"@,
        STAGING_DIR@ == "nix-ninja-task-outputs"@,
{
}

} // verus!

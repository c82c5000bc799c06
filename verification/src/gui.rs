//! The state of the archiver's window and how each message changes it. The
//! window itself (widgets, dialogs, running the archiver) lies outside: it
//! turns user input into `Message`s and carries out the returned `Action`.
use vstd::prelude::*;
use vstd::string::StringExecFns;

use crate::archiver::PackProgress;

verus! {

/// The two pages of the window.
#[derive(Debug, Clone, Copy, PartialEq, Eq, Structural)]
pub enum Tab {
    Pack,
    Unpack,
}

/// What the window reports: user input, dialog answers, archiver results.
/// Paths are carried as strings.
#[derive(Debug)]
pub enum Message {
    TabChanged(Tab),
    AddFiles,
    AddFolder,
    FilesSelected(Vec<String>),
    RemoveFile(usize),
    OutputNameChanged(String),
    PasswordChanged(String),
    StartPacking,
    PackingProgress(PackProgress),
    PackingComplete(Result<(), String>),
    SelectArchive,
    ArchiveSelected(Option<String>),
    SelectOutputDir,
    OutputDirSelected(Option<String>),
    UnpackPasswordChanged(String),
    StartUnpacking,
    UnpackingProgress(PackProgress),
    UnpackingComplete(Result<(), String>),
}

impl Clone for Message {
    /// A copy of the message: the same variant with equal payloads.
    fn clone(&self) -> (r: Self)
        ensures
            *self matches Message::TabChanged(t) ==> r matches Message::TabChanged(u) && u == t,
            self is AddFiles ==> r is AddFiles,
            self is AddFolder ==> r is AddFolder,
            *self matches Message::FilesSelected(a) ==> r matches Message::FilesSelected(b)
                && path_list(b@) == path_list(a@),
            *self matches Message::RemoveFile(i) ==> r matches Message::RemoveFile(j) && j == i,
            *self matches Message::OutputNameChanged(a) ==> r matches Message::OutputNameChanged(b)
                && b@ == a@,
            *self matches Message::PasswordChanged(a) ==> r matches Message::PasswordChanged(b)
                && b@ == a@,
            self is StartPacking ==> r is StartPacking,
            *self matches Message::PackingProgress(a) ==> r matches Message::PackingProgress(b)
                && b.current_file@ == a.current_file@ && b.processed == a.processed && b.total
                == a.total,
            *self matches Message::PackingComplete(a) ==> r matches Message::PackingComplete(b)
                && same_outcome(a, b),
            self is SelectArchive ==> r is SelectArchive,
            *self matches Message::ArchiveSelected(a) ==> r matches Message::ArchiveSelected(b)
                && same_path(a, b),
            self is SelectOutputDir ==> r is SelectOutputDir,
            *self matches Message::OutputDirSelected(a) ==> r matches Message::OutputDirSelected(b)
                && same_path(a, b),
            *self matches Message::UnpackPasswordChanged(a) ==> r matches Message::UnpackPasswordChanged(
                b,
            ) && b@ == a@,
            self is StartUnpacking ==> r is StartUnpacking,
            *self matches Message::UnpackingProgress(a) ==> r matches Message::UnpackingProgress(b)
                && b.current_file@ == a.current_file@ && b.processed == a.processed && b.total
                == a.total,
            *self matches Message::UnpackingComplete(a) ==> r matches Message::UnpackingComplete(b)
                && same_outcome(a, b),
    {
        match self {
            Message::TabChanged(tab) => Message::TabChanged(*tab),
            Message::AddFiles => Message::AddFiles,
            Message::AddFolder => Message::AddFolder,
            Message::FilesSelected(files) => Message::FilesSelected(ArchiverApp::clone_paths(files)),
            Message::RemoveFile(index) => Message::RemoveFile(*index),
            Message::OutputNameChanged(name) => Message::OutputNameChanged(name.clone()),
            Message::PasswordChanged(pwd) => Message::PasswordChanged(pwd.clone()),
            Message::StartPacking => Message::StartPacking,
            Message::PackingProgress(p) => Message::PackingProgress(p.clone()),
            Message::PackingComplete(result) => Message::PackingComplete(clone_outcome(result)),
            Message::SelectArchive => Message::SelectArchive,
            Message::ArchiveSelected(path) => Message::ArchiveSelected(clone_path(path)),
            Message::SelectOutputDir => Message::SelectOutputDir,
            Message::OutputDirSelected(path) => Message::OutputDirSelected(clone_path(path)),
            Message::UnpackPasswordChanged(pwd) => Message::UnpackPasswordChanged(pwd.clone()),
            Message::StartUnpacking => Message::StartUnpacking,
            Message::UnpackingProgress(p) => Message::UnpackingProgress(p.clone()),
            Message::UnpackingComplete(result) => Message::UnpackingComplete(clone_outcome(result)),
        }
    }
}

/// Both outcomes are successes, or failures with the same text.
pub open spec fn same_outcome(a: Result<(), String>, b: Result<(), String>) -> bool {
    match (a, b) {
        (Ok(_), Ok(_)) => true,
        (Err(x), Err(y)) => x@ == y@,
        _ => false,
    }
}

/// Both are no path, or the same path.
pub open spec fn same_path(a: Option<String>, b: Option<String>) -> bool {
    match (a, b) {
        (None, None) => true,
        (Some(x), Some(y)) => x@ == y@,
        _ => false,
    }
}

fn clone_path(path: &Option<String>) -> (r: Option<String>)
    ensures
        same_path(*path, r),
{
    match path {
        Some(p) => Some(p.clone()),
        None => None,
    }
}

fn clone_outcome(result: &Result<(), String>) -> (r: Result<(), String>)
    ensures
        same_outcome(*result, r),
{
    match result {
        Ok(()) => Ok(()),
        Err(e) => Err(e.clone()),
    }
}

/// What the window has to do after a message: nothing, open a dialog, or
/// run the archiver in the background and report back.
#[derive(Debug)]
pub enum Action {
    /// Nothing to do.
    Nothing,
    /// Ask for files; the chosen ones come back as `FilesSelected`.
    PickFiles,
    /// Ask for a folder; it comes back as `FilesSelected` with one path.
    PickFolder,
    /// Ask for an archive; the answer comes back as `ArchiveSelected`.
    PickArchive,
    /// Ask for a directory; the answer comes back as `OutputDirSelected`.
    PickOutputDir,
    /// Pack `files` into `output`; the result comes back as `PackingComplete`.
    Pack { files: Vec<String>, output: String, password: Option<String> },
    /// Unpack `archive` into `output_dir`; the result comes back as
    /// `UnpackingComplete`.
    Unpack { archive: String, output_dir: String, password: Option<String> },
}

/// The state of the window.
pub struct ArchiverApp {
    pub current_tab: Tab,
    pub files_to_pack: Vec<String>,
    pub output_name: String,
    pub pack_password: String,
    pub packing_progress: Option<PackProgress>,
    pub pack_status: String,
    pub archive_path: Option<String>,
    pub output_dir: Option<String>,
    pub unpack_password: String,
    pub unpacking_progress: Option<PackProgress>,
    pub unpack_status: String,
}

/// The password handed to the archiver: none for an empty field, and the
/// field's text otherwise.
pub open spec fn password_request(password: Option<String>, typed: String) -> bool {
    if typed@.len() == 0 {
        password is None
    } else {
        password matches Some(p) && p@ == typed@
    }
}

/// The progress shown when a job starts: no file yet, 0 of 1 done.
pub open spec fn starting_progress(progress: Option<PackProgress>) -> bool {
    progress matches Some(p) && p.current_file@ == Seq::<char>::empty() && p.processed == 0
        && p.total == 1
}

/// The strings' views.
pub open spec fn path_list(v: Seq<String>) -> Seq<Seq<char>> {
    Seq::new(v.len(), |i: int| v[i]@)
}

/// How `msg` takes the window from `pre` to `post`, and what it asks for.
pub open spec fn update_spec(pre: ArchiverApp, msg: Message, post: ArchiverApp, action: Action) -> bool {
    match msg {
        Message::TabChanged(tab) => post == ArchiverApp { current_tab: tab, ..pre } && action is Nothing,
        Message::AddFiles => post == pre && action is PickFiles,
        Message::AddFolder => post == pre && action is PickFolder,
        Message::FilesSelected(files) => {
            &&& path_list(post.files_to_pack@) == path_list(pre.files_to_pack@) + path_list(files@)
            &&& post == ArchiverApp { files_to_pack: post.files_to_pack, ..pre }
            &&& action is Nothing
        },
        Message::RemoveFile(index) => {
            &&& if index < pre.files_to_pack@.len() {
                path_list(post.files_to_pack@) == path_list(pre.files_to_pack@).remove(index as int)
            } else {
                path_list(post.files_to_pack@) == path_list(pre.files_to_pack@)
            }
            &&& post == ArchiverApp { files_to_pack: post.files_to_pack, ..pre }
            &&& action is Nothing
        },
        Message::OutputNameChanged(name) => post == ArchiverApp { output_name: name, ..pre }
            && action is Nothing,
        Message::PasswordChanged(pwd) => post == ArchiverApp { pack_password: pwd, ..pre }
            && action is Nothing,
        Message::StartPacking => if pre.files_to_pack@.len() == 0 {
            &&& post.pack_status@ == "Error: No files selected"@
            &&& post == ArchiverApp { pack_status: post.pack_status, ..pre }
            &&& action is Nothing
        } else {
            &&& post.pack_status@ == "Packing..."@
            &&& starting_progress(post.packing_progress)
            &&& post == ArchiverApp {
                pack_status: post.pack_status,
                packing_progress: post.packing_progress,
                ..pre
            }
            &&& action matches Action::Pack { files, output, password }
            &&& path_list(files@) == path_list(pre.files_to_pack@)
            &&& output@ == pre.output_name@
            &&& password_request(password, pre.pack_password)
        },
        Message::PackingProgress(progress) => post == ArchiverApp {
            packing_progress: Some(progress),
            ..pre
        } && action is Nothing,
        Message::PackingComplete(result) => {
            &&& post.pack_status@ == match result {
                Ok(_) => "\u{2713} Successfully created "@ + pre.output_name@,
                Err(e) => "\u{2717} Error: "@ + e@,
            }
            &&& post == ArchiverApp { packing_progress: None, pack_status: post.pack_status, ..pre }
            &&& action is Nothing
        },
        Message::SelectArchive => post == pre && action is PickArchive,
        Message::ArchiveSelected(path) => post == ArchiverApp { archive_path: path, ..pre }
            && action is Nothing,
        Message::SelectOutputDir => post == pre && action is PickOutputDir,
        Message::OutputDirSelected(path) => post == ArchiverApp { output_dir: path, ..pre }
            && action is Nothing,
        Message::UnpackPasswordChanged(pwd) => post == ArchiverApp { unpack_password: pwd, ..pre }
            && action is Nothing,
        Message::StartUnpacking => match pre.archive_path {
            None => {
                &&& post.unpack_status@ == "Error: No archive selected"@
                &&& post == ArchiverApp { unpack_status: post.unpack_status, ..pre }
                &&& action is Nothing
            },
            Some(a) => match pre.output_dir {
                None => {
                    &&& post.unpack_status@ == "Error: No output directory selected"@
                    &&& post == ArchiverApp { unpack_status: post.unpack_status, ..pre }
                    &&& action is Nothing
                },
                Some(d) => {
                    &&& post.unpack_status@ == "Unpacking..."@
                    &&& starting_progress(post.unpacking_progress)
                    &&& post == ArchiverApp {
                        unpack_status: post.unpack_status,
                        unpacking_progress: post.unpacking_progress,
                        ..pre
                    }
                    &&& action matches Action::Unpack { archive, output_dir, password }
                    &&& archive@ == a@
                    &&& output_dir@ == d@
                    &&& password_request(password, pre.unpack_password)
                },
            },
        },
        Message::UnpackingProgress(progress) => post == ArchiverApp {
            unpacking_progress: Some(progress),
            ..pre
        } && action is Nothing,
        Message::UnpackingComplete(result) => {
            &&& post.unpack_status@ == match result {
                Ok(_) => "\u{2713} Successfully unpacked archive"@,
                Err(e) => "\u{2717} Error: "@ + e@,
            }
            &&& post == ArchiverApp {
                unpacking_progress: None,
                unpack_status: post.unpack_status,
                ..pre
            }
            &&& action is Nothing
        },
    }
}

impl ArchiverApp {
    /// The state of a fresh window: the pack page, no files, output
    /// `archive.rpak`, empty passwords and statuses, nothing selected.
    pub open spec fn is_initial(&self) -> bool {
        &&& self.current_tab == Tab::Pack
        &&& self.files_to_pack@.len() == 0
        &&& self.output_name@ == "archive.rpak"@
        &&& self.pack_password@.len() == 0
        &&& self.packing_progress is None
        &&& self.pack_status@.len() == 0
        &&& self.archive_path is None
        &&& self.output_dir is None
        &&& self.unpack_password@.len() == 0
        &&& self.unpacking_progress is None
        &&& self.unpack_status@.len() == 0
    }

    fn password_to_send(typed: &String) -> (r: Option<String>)
        ensures
            password_request(r, *typed),
    {
        if typed.as_str().is_empty() {
            None
        } else {
            Some(typed.clone())
        }
    }

    pub fn clone_paths(paths: &Vec<String>) -> (r: Vec<String>)
        ensures
            path_list(r@) == path_list(paths@),
    {
        let mut r: Vec<String> = Vec::new();
        let mut i: usize = 0;
        while i < paths.len()
            invariant
                i <= paths@.len(),
                r@.len() == i,
                forall|j: int| 0 <= j < i ==> #[trigger] r@[j]@ == paths@[j]@,
            decreases paths@.len() - i,
        {
            r.push(paths[i].clone());
            i = i + 1;
        }
        assert(path_list(r@) =~= path_list(paths@));
        r
    }

    fn completion_status(success: &str, result: &Result<(), String>) -> (r: String)
        ensures
            r@ == match result {
                Ok(_) => success@,
                Err(e) => "\u{2717} Error: "@ + e@,
            },
    {
        match result {
            Ok(_) => String::from_str(success),
            Err(e) => {
                let mut s = String::from_str("\u{2717} Error: ");
                s.append(e.as_str());
                s
            },
        }
    }

    /// Applies a message to the window's state and says what has to happen
    /// next.
    pub fn update(&mut self, message: Message) -> (action: Action)
        ensures
            update_spec(*old(self), message, *final(self), action),
            message matches Message::RemoveFile(index) ==> if index < old(self).files_to_pack@.len() {
                &&& final(self).files_to_pack@.len() + 1 == old(self).files_to_pack@.len()
                &&& forall|j: int|
                    0 <= j < index ==> #[trigger] final(self).files_to_pack@[j]@
                        == old(self).files_to_pack@[j]@
                &&& forall|j: int|
                    index <= j < final(self).files_to_pack@.len()
                        ==> #[trigger] final(self).files_to_pack@[j]@
                        == old(self).files_to_pack@[j + 1]@
            } else {
                final(self).files_to_pack@ == old(self).files_to_pack@
            },
            message matches Message::TabChanged(tab) ==> final(self).current_tab == tab,
            message matches Message::FilesSelected(files) ==> {
                &&& final(self).files_to_pack@.len() == old(self).files_to_pack@.len()
                    + files@.len()
                &&& forall|j: int|
                    0 <= j < old(self).files_to_pack@.len() ==> #[trigger] final(self).files_to_pack@[j]@ == old(self).files_to_pack@[j]@
                &&& forall|j: int|
                    0 <= j < files@.len() ==> #[trigger] final(self).files_to_pack@[old(self).files_to_pack@.len() + j]@ == files@[j]@
            },
            message matches Message::OutputNameChanged(name) ==> final(self).output_name == name,
            message matches Message::PasswordChanged(pwd) ==> final(self).pack_password == pwd,
            message matches Message::UnpackPasswordChanged(pwd) ==> final(self).unpack_password
                == pwd,
            message matches Message::ArchiveSelected(path) ==> final(self).archive_path == path,
            message matches Message::OutputDirSelected(path) ==> final(self).output_dir == path,
            message is StartPacking ==> (action is Pack <==> old(self).files_to_pack@.len() > 0),
            message is StartPacking ==> (action matches Action::Pack { files, output, password }
                ==> {
                &&& files@.len() == old(self).files_to_pack@.len()
                &&& forall|j: int|
                    0 <= j < files@.len() ==> #[trigger] files@[j]@ == old(self).files_to_pack@[j]@
                &&& output@ == old(self).output_name@
                &&& (password is None <==> old(self).pack_password@.len() == 0)
                &&& (password matches Some(p) ==> p@ == old(self).pack_password@)
            }),
            message is StartUnpacking ==> (action is Unpack <==> (old(self).archive_path is Some
                && old(self).output_dir is Some)),
            message is StartUnpacking ==> (action matches Action::Unpack {
                archive,
                output_dir,
                password,
            } ==> {
                &&& old(self).archive_path matches Some(a) && a@ == archive@
                &&& old(self).output_dir matches Some(d) && d@ == output_dir@
                &&& (password is None <==> old(self).unpack_password@.len() == 0)
                &&& (password matches Some(p) ==> p@ == old(self).unpack_password@)
            }),
            message matches Message::PackingComplete(result) ==> final(self).packing_progress is None,
            message matches Message::PackingComplete(result) ==> final(self).pack_status@ == match result {
                Ok(_) => "\u{2713} Successfully created "@ + old(self).output_name@,
                Err(e) => "\u{2717} Error: "@ + e@,
            },
            message matches Message::UnpackingComplete(result) ==> final(self).unpack_status@ == match result {
                Ok(_) => "\u{2713} Successfully unpacked archive"@,
                Err(e) => "\u{2717} Error: "@ + e@,
            },
            message is StartPacking && old(self).files_to_pack@.len() == 0 ==> final(self).pack_status@
                == "Error: No files selected"@,
            message is StartUnpacking && old(self).archive_path is None ==> final(self).unpack_status@
                == "Error: No archive selected"@,
            message matches Message::UnpackingComplete(result) ==> final(self).unpacking_progress is None,
    {
        match message {
            Message::TabChanged(tab) => {
                self.current_tab = tab;
                Action::Nothing
            },
            Message::AddFiles => Action::PickFiles,
            Message::AddFolder => Action::PickFolder,
            Message::FilesSelected(files) => {
                let ghost before = self.files_to_pack@;
                let mut files = files;
                let ghost added = files@;
                self.files_to_pack.append(&mut files);
                assert(path_list(self.files_to_pack@) =~= path_list(before) + path_list(added));
                Action::Nothing
            },
            Message::RemoveFile(index) => {
                if index < self.files_to_pack.len() {
                    let ghost before = self.files_to_pack@;
                    self.files_to_pack.remove(index);
                    assert(path_list(self.files_to_pack@) =~= path_list(before).remove(
                        index as int,
                    ));
                }
                Action::Nothing
            },
            Message::OutputNameChanged(name) => {
                self.output_name = name;
                Action::Nothing
            },
            Message::PasswordChanged(pwd) => {
                self.pack_password = pwd;
                Action::Nothing
            },
            Message::StartPacking => {
                if self.files_to_pack.len() == 0 {
                    self.pack_status = String::from_str("Error: No files selected");
                    return Action::Nothing;
                }
                let files = Self::clone_paths(&self.files_to_pack);
                assert(files@.len() == path_list(files@).len());
                assert forall|j: int| 0 <= j < files@.len() implies #[trigger] files@[j]@
                    == self.files_to_pack@[j]@ by {
                    assert(path_list(files@)[j] == path_list(self.files_to_pack@)[j]);
                }
                let output = self.output_name.clone();
                let password = Self::password_to_send(&self.pack_password);
                self.pack_status = String::from_str("Packing...");
                self.packing_progress = Some(
                    PackProgress { current_file: String::new(), processed: 0, total: 1 },
                );
                Action::Pack { files, output, password }
            },
            Message::PackingProgress(progress) => {
                self.packing_progress = Some(progress);
                Action::Nothing
            },
            Message::PackingComplete(result) => {
                self.packing_progress = None;
                let mut created = String::from_str("\u{2713} Successfully created ");
                created.append(self.output_name.as_str());
                self.pack_status = Self::completion_status(created.as_str(), &result);
                Action::Nothing
            },
            Message::SelectArchive => Action::PickArchive,
            Message::ArchiveSelected(path) => {
                self.archive_path = path;
                Action::Nothing
            },
            Message::SelectOutputDir => Action::PickOutputDir,
            Message::OutputDirSelected(path) => {
                self.output_dir = path;
                Action::Nothing
            },
            Message::UnpackPasswordChanged(pwd) => {
                self.unpack_password = pwd;
                Action::Nothing
            },
            Message::StartUnpacking => {
                let archive = match &self.archive_path {
                    Some(a) => a.clone(),
                    None => {
                        self.unpack_status = String::from_str("Error: No archive selected");
                        return Action::Nothing;
                    },
                };
                let output_dir = match &self.output_dir {
                    Some(d) => d.clone(),
                    None => {
                        self.unpack_status = String::from_str(
                            "Error: No output directory selected",
                        );
                        return Action::Nothing;
                    },
                };
                let password = Self::password_to_send(&self.unpack_password);
                self.unpack_status = String::from_str("Unpacking...");
                self.unpacking_progress = Some(
                    PackProgress { current_file: String::new(), processed: 0, total: 1 },
                );
                Action::Unpack { archive, output_dir, password }
            },
            Message::UnpackingProgress(progress) => {
                self.unpacking_progress = Some(progress);
                Action::Nothing
            },
            Message::UnpackingComplete(result) => {
                self.unpacking_progress = None;
                self.unpack_status = Self::completion_status(
                    "\u{2713} Successfully unpacked archive",
                    &result,
                );
                Action::Nothing
            },
        }
    }

    /// The text shown for the chosen archive.
    pub fn archive_display(&self) -> (r: String)
        ensures
            r@ == match self.archive_path {
                Some(p) => p@,
                None => "No archive selected"@,
            },
    {
        match &self.archive_path {
            Some(p) => p.clone(),
            None => String::from_str("No archive selected"),
        }
    }

    /// The text shown for the chosen output directory.
    pub fn output_display(&self) -> (r: String)
        ensures
            r@ == match self.output_dir {
                Some(p) => p@,
                None => "No output directory selected"@,
            },
    {
        match &self.output_dir {
            Some(p) => p.clone(),
            None => String::from_str("No output directory selected"),
        }
    }
}

impl Default for ArchiverApp {
    fn default() -> (r: Self)
        ensures
            r.is_initial(),
    {
        ArchiverApp {
            current_tab: Tab::Pack,
            files_to_pack: Vec::new(),
            output_name: String::from_str("archive.rpak"),
            pack_password: String::new(),
            packing_progress: None,
            pack_status: String::new(),
            archive_path: None,
            output_dir: None,
            unpack_password: String::new(),
            unpacking_progress: None,
            unpack_status: String::new(),
        }
    }
}


/// Removing the file at a valid index takes exactly that file out of the list
/// to pack: the list is one shorter, the files before it stay where they
/// were, and the files after it move up by one. An index past the end leaves
/// the list as it was.
pub proof fn lemma_remove_file(pre: ArchiverApp, index: usize, post: ArchiverApp, action: Action)
    requires
        update_spec(pre, Message::RemoveFile(index), post, action),
    ensures
        index < pre.files_to_pack@.len() ==> {
            &&& post.files_to_pack@.len() + 1 == pre.files_to_pack@.len()
            &&& forall|j: int|
                0 <= j < index ==> #[trigger] post.files_to_pack@[j]@ == pre.files_to_pack@[j]@
            &&& forall|j: int|
                index <= j < post.files_to_pack@.len() ==> #[trigger] post.files_to_pack@[j]@
                    == pre.files_to_pack@[j + 1]@
        },
        index >= pre.files_to_pack@.len() ==> post.files_to_pack@.len()
            == pre.files_to_pack@.len(),
        post.current_tab == pre.current_tab,
{
    if index < pre.files_to_pack@.len() {
        let a = path_list(post.files_to_pack@);
        let b = path_list(pre.files_to_pack@).remove(index as int);
        assert(a.len() == b.len());
        assert forall|j: int| 0 <= j < index implies #[trigger] post.files_to_pack@[j]@
            == pre.files_to_pack@[j]@ by {
            assert(a[j] == b[j]);
        }
        assert forall|j: int| index <= j < post.files_to_pack@.len() implies #[trigger] post.files_to_pack@[j]@
            == pre.files_to_pack@[j + 1]@ by {
            assert(a[j] == b[j]);
        }
    } else {
        assert(path_list(post.files_to_pack@).len() == path_list(pre.files_to_pack@).len());
    }
}

/// Switching tabs shows the page asked for and changes nothing else.
pub proof fn lemma_tab_changed(pre: ArchiverApp, tab: Tab, post: ArchiverApp, action: Action)
    requires
        update_spec(pre, Message::TabChanged(tab), post, action),
    ensures
        post.current_tab == tab,
        post.files_to_pack == pre.files_to_pack,
        post.pack_status == pre.pack_status,
        post.unpack_status == pre.unpack_status,
        action is Nothing,
{
}

} // verus!

//! Planning an extraction: what has to be created on the filesystem for each
//! entry. Carrying the plan out is left to the caller.

use vstd::prelude::*;
use vstd::slice::slice_to_vec;
use vstd::string::StringSliceAdditionalSpecFns;
use vstd::utf8::{encode_utf8, valid_utf8};
use crate::cpio::archive::Cpio;
use crate::cpio::device::{make_dev, makedev_spec};
use crate::cpio::entry::{kind_of, CpioEntry, EntryKind, EntryView};
use crate::cpio::error::CpioError;
use crate::cpio::format::{dot_dot_name, dot_name};
use crate::cpio::items::Items;
use crate::cpio::path::{norm_path, norm_path_spec};
use crate::order::bytes_eq;
use crate::text::{from_utf8, owned};

verus! {

/// The permission bits of a mode.
pub const PERMISSION_MASK: u32 = 0o777;

/// What to create for one entry.
#[derive(Debug)]
pub enum ExtractAction {
    /// Create a directory with these permission bits.
    MakeDir { mode: u32 },
    /// Create a file with this content.
    WriteFile { data: Vec<u8> },
    /// Create a symbolic link to this target.
    Symlink { target: String },
    /// Create a device node with this mode and device identifier.
    MakeNode { mode: u32, dev: u64 },
    /// Nothing can be created: the extraction fails here.
    Fail { error: CpioError },
}

/// The mathematical value of an action.
pub enum ActionView {
    MakeDir { mode: u32 },
    WriteFile { data: Seq<u8> },
    Symlink { target: Seq<u8> },
    MakeNode { mode: u32, dev: u64 },
    Fail { error: CpioError },
}

impl View for ExtractAction {
    type V = ActionView;

    open spec fn view(&self) -> ActionView {
        match self {
            ExtractAction::MakeDir { mode } => ActionView::MakeDir { mode: *mode },
            ExtractAction::WriteFile { data } => ActionView::WriteFile { data: data@ },
            ExtractAction::Symlink { target } => ActionView::Symlink {
                target: encode_utf8(target@),
            },
            ExtractAction::MakeNode { mode, dev } => ActionView::MakeNode {
                mode: *mode,
                dev: *dev,
            },
            ExtractAction::Fail { error } => ActionView::Fail { error: *error },
        }
    }
}

/// One step of an extraction: the path to create, after its parent
/// directories, and what to create there.
#[derive(Debug)]
pub struct ExtractStep {
    pub out: String,
    pub action: ExtractAction,
}

/// The mathematical value of a step.
pub struct StepView {
    pub out: Seq<u8>,
    pub action: ActionView,
}

impl View for ExtractStep {
    type V = StepView;

    open spec fn view(&self) -> StepView {
        StepView { out: encode_utf8(self.out@), action: self.action@ }
    }
}

/// What to create for an entry: a directory with the entry's permission
/// bits, a file with its payload, a link to its payload read as text, or a
/// device node with its mode and device numbers. It is a failure where the
/// payload of a link is no text, and where the type bits name no known kind.
pub open spec fn action_of(entry: EntryView) -> ActionView {
    match kind_of(entry.mode) {
        EntryKind::Directory => ActionView::MakeDir { mode: entry.mode & PERMISSION_MASK },
        EntryKind::Regular => ActionView::WriteFile { data: entry.data },
        EntryKind::Symlink => if valid_utf8(entry.data) {
            ActionView::Symlink { target: entry.data }
        } else {
            ActionView::Fail { error: CpioError::InvalidLinkTarget }
        },
        EntryKind::BlockDevice => ActionView::MakeNode {
            mode: entry.mode,
            dev: makedev_spec(entry.rdevmajor, entry.rdevminor),
        },
        EntryKind::CharDevice => ActionView::MakeNode {
            mode: entry.mode,
            dev: makedev_spec(entry.rdevmajor, entry.rdevminor),
        },
        EntryKind::Unknown => ActionView::Fail { error: CpioError::UnknownEntryType },
    }
}

/// The steps that extract every item to a path equal to its name: one step
/// for each item, in order, but none for the names `.` and `..`, and none
/// after a step that fails.
pub open spec fn plan_all(items: Items) -> Seq<StepView>
    decreases items.len(),
{
    if items.len() == 0 {
        Seq::empty()
    } else {
        let front = plan_all(items.drop_last());
        let name = items.last().0;
        if front.len() > 0 && front.last().action is Fail {
            front
        } else if name == dot_name() || name == dot_dot_name() {
            front
        } else {
            front.push(StepView { out: name, action: action_of(items.last().1) })
        }
    }
}

/// The views of the steps of a plan.
pub open spec fn steps_view(steps: Seq<ExtractStep>) -> Seq<StepView> {
    Seq::new(steps.len(), |i: int| steps[i]@)
}

impl CpioEntry {
    /// What to create for this entry.
    pub fn action(&self) -> (a: ExtractAction)
        ensures
            a@ == action_of(self@),
    {
        match self.kind() {
            EntryKind::Directory => ExtractAction::MakeDir { mode: self.mode & PERMISSION_MASK },
            EntryKind::Regular => ExtractAction::WriteFile {
                data: slice_to_vec(self.data.as_slice()),
            },
            EntryKind::Symlink => match from_utf8(self.data.as_slice()) {
                Ok(target) => ExtractAction::Symlink { target: owned(target) },
                Err(_) => ExtractAction::Fail { error: CpioError::InvalidLinkTarget },
            },
            EntryKind::BlockDevice => ExtractAction::MakeNode {
                mode: self.mode,
                dev: make_dev(self.rdevmajor, self.rdevminor),
            },
            EntryKind::CharDevice => ExtractAction::MakeNode {
                mode: self.mode,
                dev: make_dev(self.rdevmajor, self.rdevminor),
            },
            EntryKind::Unknown => ExtractAction::Fail { error: CpioError::UnknownEntryType },
        }
    }
}

impl Cpio {
    /// The step that extracts the entry stored under exactly `path` to `out`.
    /// Fails where no entry is stored there.
    pub fn extract_entry(&self, path: &str, out: &str) -> (r: Result<ExtractStep, CpioError>)
        requires
            self.wf(),
        ensures
            match r {
                Ok(step) => self@.dom().contains(path.spec_bytes()) && step@ == (StepView {
                    out: out.spec_bytes(),
                    action: action_of(self@[path.spec_bytes()]),
                }),
                Err(e) => !self@.dom().contains(path.spec_bytes()) && e == CpioError::NoSuchFile,
            },
    {
        match self.get(path.as_bytes()) {
            Some(entry) => Ok(ExtractStep { out: owned(out), action: entry.action() }),
            None => Err(CpioError::NoSuchFile),
        }
    }

    /// The steps of an extraction. Where both a path and a destination are
    /// given, the one step that extracts the entry under the normalized path
    /// to the destination. Otherwise the steps that extract every entry to a
    /// path equal to its name.
    pub fn extract(&self, path: Option<&str>, out: Option<&str>) -> (r: Result<
        Vec<ExtractStep>,
        CpioError,
    >)
        requires
            self.wf(),
        ensures
            match (path, out) {
                (Some(p), Some(o)) => {
                    let key = norm_path_spec(p.spec_bytes());
                    match r {
                        Ok(steps) => self@.dom().contains(key) && steps_view(steps@) == seq![
                            StepView { out: o.spec_bytes(), action: action_of(self@[key]) },
                        ],
                        Err(e) => !self@.dom().contains(key) && e == CpioError::NoSuchFile,
                    }
                },
                _ => r matches Ok(steps) && steps_view(steps@) == plan_all(self.items()),
            },
    {
        match (path, out) {
            (Some(p), Some(o)) => {
                let key = norm_path(p);
                match self.extract_entry(key.as_str(), o) {
                    Ok(step) => {
                        let mut steps: Vec<ExtractStep> = Vec::new();
                        steps.push(step);
                        assert(steps_view(steps@) =~= seq![step@]);
                        Ok(steps)
                    },
                    Err(e) => Err(e),
                }
            },
            _ => Ok(self.extract_all()),
        }
    }

    /// The steps that extract every entry to a path equal to its name.
    pub fn extract_all(&self) -> (steps: Vec<ExtractStep>)
        ensures
            steps_view(steps@) == plan_all(self.items()),
    {
        let dot: [u8; 1] = [0x2e];
        let dot_dot: [u8; 2] = [0x2e, 0x2e];
        assert(dot@ =~= dot_name());
        assert(dot_dot@ =~= dot_dot_name());
        let ghost items = self.items();
        let mut steps: Vec<ExtractStep> = Vec::new();
        let mut failed: bool = false;
        let n: usize = self.len();
        let mut i: usize = 0;
        assert(items.take(0) =~= Seq::<(Seq<u8>, EntryView)>::empty());
        assert(steps_view(steps@) =~= plan_all(items.take(0)));
        while i < n
            invariant
                i <= n,
                n == items.len(),
                items == self.items(),
                dot@ == dot_name(),
                dot_dot@ == dot_dot_name(),
                steps_view(steps@) == plan_all(items.take(i as int)),
                failed == (steps@.len() > 0 && steps@.last()@.action is Fail),
            decreases n - i,
        {
            let name = self.name_at(i);
            proof {
                assert(items.take(i as int + 1).drop_last() =~= items.take(i as int));
                assert(items.take(i as int + 1).last() == items[i as int]);
                if steps@.len() > 0 {
                    assert(steps_view(steps@).last() == steps@.last()@);
                }
            }
            if !failed && !bytes_eq(name.as_bytes(), dot.as_slice()) && !bytes_eq(
                name.as_bytes(),
                dot_dot.as_slice(),
            ) {
                let action = self.entry_at(i).action();
                failed =
                match action {
                    ExtractAction::Fail { .. } => true,
                    _ => false,
                };
                let ghost before = steps_view(steps@);
                let step = ExtractStep { out: owned(name), action };
                steps.push(step);
                assert(steps_view(steps@) =~= before.push(step@));
            }
            i = i + 1;
        }
        assert(items.take(n as int) =~= items);
        steps
    }
}

} // verus!

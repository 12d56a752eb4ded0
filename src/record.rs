//! Process records and the small enumerations that steer the view.
use vstd::prelude::*;

verus! {

/// One process as captured by a snapshot. CPU usage is held in hundredths
/// of a percent (it may exceed 10000 on multi-core machines).
#[derive(Clone, Debug)]
pub struct ProcessRecord {
    pub pid: u32,
    pub name: String,
    pub cpu: u32,
    pub memory: u64,
}

/// The mathematical content of a [`ProcessRecord`].
pub ghost struct RecordView {
    pub pid: u32,
    pub name: Seq<char>,
    pub cpu: u32,
    pub memory: u64,
}

impl View for ProcessRecord {
    type V = RecordView;

    open spec fn view(&self) -> RecordView {
        RecordView { pid: self.pid, name: self.name@, cpu: self.cpu, memory: self.memory }
    }
}

/// The views of a sequence of records.
pub open spec fn views(s: Seq<ProcessRecord>) -> Seq<RecordView> {
    s.map_values(|r: ProcessRecord| r@)
}

impl ProcessRecord {
    /// A copy of this record with the same contents.
    pub fn duplicate(&self) -> (r: ProcessRecord)
        ensures
            r@ == self@,
    {
        ProcessRecord { pid: self.pid, name: self.name.clone(), cpu: self.cpu, memory: self.memory }
    }
}

/// The screens of the application.
#[derive(Clone, Copy, Debug, PartialEq, Eq, Structural)]
pub enum Page {
    Home,
    ProcessManager,
    Settings,
    Test1,
}

impl Page {
    /// The position of this screen in the navigation bar.
    pub fn page_idx(&self) -> (r: usize)
        ensures
            r < 4,
            *self == Page::Home ==> r == 0,
            *self == Page::ProcessManager ==> r == 1,
            *self == Page::Settings ==> r == 2,
            *self == Page::Test1 ==> r == 3,
    {
        match self {
            Page::Home => 0,
            Page::ProcessManager => 1,
            Page::Settings => 2,
            Page::Test1 => 3,
        }
    }
}

/// The record field that orders the view.
#[derive(Clone, Copy, Debug, PartialEq, Eq, Structural)]
pub enum SortColumn {
    Pid,
    Name,
    Cpu,
    Memory,
}

/// Ascending or descending order.
#[derive(Clone, Copy, Debug, PartialEq, Eq, Structural)]
pub enum SortDirection {
    Ascending,
    Descending,
}

impl SortDirection {
    /// The opposite direction.
    pub fn toggle(&self) -> (r: SortDirection)
        ensures
            *self == SortDirection::Ascending ==> r == SortDirection::Descending,
            *self == SortDirection::Descending ==> r == SortDirection::Ascending,
    {
        match self {
            SortDirection::Ascending => SortDirection::Descending,
            SortDirection::Descending => SortDirection::Ascending,
        }
    }

    /// The arrow shown beside the active column heading.
    pub fn symbol(&self) -> (r: &'static str)
        ensures
            *self == SortDirection::Ascending ==> r@ == seq!['\u{25B2}'],
            *self == SortDirection::Descending ==> r@ == seq!['\u{25BC}'],
    {
        match self {
            SortDirection::Ascending => {
                proof {
                    reveal_strlit("\u{25B2}");
                }
                "\u{25B2}"
            },
            SortDirection::Descending => {
                proof {
                    reveal_strlit("\u{25BC}");
                }
                "\u{25BC}"
            },
        }
    }
}

} // verus!

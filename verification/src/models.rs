//! The data model: notes, tasks, sections, findings, content blocks, filing
//! targets, board and backlog views — each with a mathematical view.
use vstd::prelude::*;

verus! {

/// Classifies the format of a note's ID.
/// - `JdDotted`: dotted Johnny Decimal number (`42.02`, `30.10.04`) or a single digit
/// - `HubCode`: hub identifier (`00.PH`, `00.DH`, `00.RH`)
/// - `Sequential`: a run of two or more digits (`01`, `02`)
/// - `DatePrefix`: ISO date prefix (`2026-03-09`)
/// - `BareHub`: a bare `00` without hub suffix
#[derive(Debug, Clone, Copy, PartialEq, Eq, Structural)]
pub enum NoteIdKind {
    JdDotted,
    HubCode,
    Sequential,
    DatePrefix,
    BareHub,
}

#[derive(Debug, Clone, Copy, PartialEq, Eq, Structural)]
pub enum NoteKind {
    Regular,
    Daily,
    Weekly,
    Monthly,
    Quarterly,
    Yearly,
    Template,
}

#[derive(Debug, Clone, Copy, PartialEq, Eq, Structural)]
pub enum TaskState {
    Open,
    Done,
    Cancelled,
    Scheduled,
}

#[derive(Debug, Clone)]
pub struct Task {
    pub text: String,
    pub state: TaskState,
    pub line_number: usize,
    /// The earlier date of a rescheduled task (an ISO date after `<`).
    pub rescheduled_from: Option<String>,
    /// The date a task is planned for (an ISO date after `>`).
    pub scheduled_to: Option<String>,
    pub tags: Vec<String>,
    pub mentions: Vec<String>,
    /// Native NotePlan priority: 0 (none), 1 (`!`), 2 (`!!`), 3 (`!!!`).
    pub priority: u8,
    /// NotePlan block ID (`^abc123`) if present.
    pub block_id: Option<String>,
}

pub struct TaskV {
    pub text: Seq<char>,
    pub state: TaskState,
    pub line_number: usize,
    pub rescheduled_from: Option<Seq<char>>,
    pub scheduled_to: Option<Seq<char>>,
    pub tags: Seq<Seq<char>>,
    pub mentions: Seq<Seq<char>>,
    pub priority: u8,
    pub block_id: Option<Seq<char>>,
}

impl DeepView for Task {
    type V = TaskV;

    open spec fn deep_view(&self) -> TaskV {
        TaskV {
            text: self.text@,
            state: self.state,
            line_number: self.line_number,
            rescheduled_from: self.rescheduled_from.deep_view(),
            scheduled_to: self.scheduled_to.deep_view(),
            tags: self.tags.deep_view(),
            mentions: self.mentions.deep_view(),
            priority: self.priority,
            block_id: self.block_id.deep_view(),
        }
    }
}

#[derive(Debug, Clone)]
pub struct WikiLink {
    pub target: String,
    pub line_number: usize,
}

pub struct WikiLinkV {
    pub target: Seq<char>,
    pub line_number: usize,
}

impl DeepView for WikiLink {
    type V = WikiLinkV;

    open spec fn deep_view(&self) -> WikiLinkV {
        WikiLinkV { target: self.target@, line_number: self.line_number }
    }
}

#[derive(Debug, Clone)]
pub struct Section {
    pub heading: String,
    pub level: u8,
    pub line_number: usize,
    pub content_lines: Vec<String>,
    pub is_empty: bool,
}

pub struct SectionV {
    pub heading: Seq<char>,
    pub level: u8,
    pub line_number: usize,
    pub content_lines: Seq<Seq<char>>,
    pub is_empty: bool,
}

impl DeepView for Section {
    type V = SectionV;

    open spec fn deep_view(&self) -> SectionV {
        SectionV {
            heading: self.heading@,
            level: self.level,
            line_number: self.line_number,
            content_lines: self.content_lines.deep_view(),
            is_empty: self.is_empty,
        }
    }
}

#[derive(Debug, Clone)]
pub struct Note {
    pub file_path: String,
    /// Path relative to the NotePlan base directory.
    pub relative_path: String,
    pub title: String,
    /// ID parsed from the filename on disk (may be stale).
    pub jd_id: Option<String>,
    /// ID parsed from the note's content title.
    pub title_jd_id: Option<String>,
    /// The parent folder's JD ID.
    pub parent_jd_id: Option<String>,
    /// Kind of the filename ID.
    pub note_id_kind: Option<NoteIdKind>,
    /// Kind of the title ID.
    pub title_note_id_kind: Option<NoteIdKind>,
    pub kind: NoteKind,
    pub content: String,
    pub tasks: Vec<Task>,
    pub wiki_links: Vec<WikiLink>,
    pub sections: Vec<Section>,
    pub tags: Vec<String>,
    pub mentions: Vec<String>,
    pub has_frontmatter: bool,
    /// Template placeholder texts found (e.g. `[Add ID]`).
    pub placeholders: Vec<String>,
}

pub struct NoteV {
    pub file_path: Seq<char>,
    pub relative_path: Seq<char>,
    pub title: Seq<char>,
    pub jd_id: Option<Seq<char>>,
    pub title_jd_id: Option<Seq<char>>,
    pub parent_jd_id: Option<Seq<char>>,
    pub note_id_kind: Option<NoteIdKind>,
    pub title_note_id_kind: Option<NoteIdKind>,
    pub kind: NoteKind,
    pub content: Seq<char>,
    pub tasks: Seq<TaskV>,
    pub wiki_links: Seq<WikiLinkV>,
    pub sections: Seq<SectionV>,
    pub tags: Seq<Seq<char>>,
    pub mentions: Seq<Seq<char>>,
    pub has_frontmatter: bool,
    pub placeholders: Seq<Seq<char>>,
}

impl DeepView for Note {
    type V = NoteV;

    open spec fn deep_view(&self) -> NoteV {
        NoteV {
            file_path: self.file_path@,
            relative_path: self.relative_path@,
            title: self.title@,
            jd_id: self.jd_id.deep_view(),
            title_jd_id: self.title_jd_id.deep_view(),
            parent_jd_id: self.parent_jd_id.deep_view(),
            note_id_kind: self.note_id_kind,
            title_note_id_kind: self.title_note_id_kind,
            kind: self.kind,
            content: self.content@,
            tasks: self.tasks.deep_view(),
            wiki_links: self.wiki_links.deep_view(),
            sections: self.sections.deep_view(),
            tags: self.tags.deep_view(),
            mentions: self.mentions.deep_view(),
            has_frontmatter: self.has_frontmatter,
            placeholders: self.placeholders.deep_view(),
        }
    }
}

#[derive(Debug, Clone, Copy, PartialEq, Eq, Hash, Structural)]
pub enum Severity {
    Info,
    Warning,
    Error,
}

#[derive(Debug, Clone, Copy, PartialEq, Eq, Hash, Structural)]
pub enum FindingCategory {
    IdConsistency,
    UnfiledSlip,
    HubCompleteness,
    BrokenLink,
    OrphanedNote,
    Duplicate,
    StaleTask,
    TemplatePlaceholder,
    AreaBalance,
    DepthInconsistency,
    CategorySprawl,
    EmptyStructure,
    MissingHub,
    StaleArea,
    CrossWiredId,
    NamingInconsistency,
    StrayTaggedTask,
}

/// The display label of a finding category.
pub open spec fn category_label(c: FindingCategory) -> Seq<char> {
    match c {
        FindingCategory::IdConsistency => "ID Consistency"@,
        FindingCategory::UnfiledSlip => "Unfiled Slip"@,
        FindingCategory::HubCompleteness => "Hub Completeness"@,
        FindingCategory::BrokenLink => "Broken Link"@,
        FindingCategory::OrphanedNote => "Orphaned Note"@,
        FindingCategory::Duplicate => "Duplicate"@,
        FindingCategory::StaleTask => "Stale Task"@,
        FindingCategory::TemplatePlaceholder => "Template Placeholder"@,
        FindingCategory::AreaBalance => "Area Balance"@,
        FindingCategory::DepthInconsistency => "Depth Inconsistency"@,
        FindingCategory::CategorySprawl => "Category Sprawl"@,
        FindingCategory::EmptyStructure => "Empty Structure"@,
        FindingCategory::MissingHub => "Missing Hub"@,
        FindingCategory::StaleArea => "Stale Area"@,
        FindingCategory::CrossWiredId => "Cross-wired ID"@,
        FindingCategory::NamingInconsistency => "Naming Inconsistency"@,
        FindingCategory::StrayTaggedTask => "Stray Tagged Task"@,
    }
}

/// Whether a category is a system-level assessment rather than a per-note
/// check.
pub open spec fn system_category(c: FindingCategory) -> bool {
    match c {
        FindingCategory::AreaBalance | FindingCategory::DepthInconsistency
        | FindingCategory::CategorySprawl | FindingCategory::EmptyStructure
        | FindingCategory::MissingHub | FindingCategory::StaleArea
        | FindingCategory::CrossWiredId | FindingCategory::NamingInconsistency => true,
        _ => false,
    }
}

impl FindingCategory {
    pub fn label(&self) -> (r: &'static str)
        ensures
            r@ == category_label(*self),
    {
        match self {
            FindingCategory::IdConsistency => "ID Consistency",
            FindingCategory::UnfiledSlip => "Unfiled Slip",
            FindingCategory::HubCompleteness => "Hub Completeness",
            FindingCategory::BrokenLink => "Broken Link",
            FindingCategory::OrphanedNote => "Orphaned Note",
            FindingCategory::Duplicate => "Duplicate",
            FindingCategory::StaleTask => "Stale Task",
            FindingCategory::TemplatePlaceholder => "Template Placeholder",
            FindingCategory::AreaBalance => "Area Balance",
            FindingCategory::DepthInconsistency => "Depth Inconsistency",
            FindingCategory::CategorySprawl => "Category Sprawl",
            FindingCategory::EmptyStructure => "Empty Structure",
            FindingCategory::MissingHub => "Missing Hub",
            FindingCategory::StaleArea => "Stale Area",
            FindingCategory::CrossWiredId => "Cross-wired ID",
            FindingCategory::NamingInconsistency => "Naming Inconsistency",
            FindingCategory::StrayTaggedTask => "Stray Tagged Task",
        }
    }

    /// Whether this category is a system-level assessment (vs per-note check).
    pub fn is_system_assessment(&self) -> (b: bool)
        ensures
            b == system_category(*self),
    {
        match self {
            FindingCategory::AreaBalance | FindingCategory::DepthInconsistency
            | FindingCategory::CategorySprawl | FindingCategory::EmptyStructure
            | FindingCategory::MissingHub | FindingCategory::StaleArea
            | FindingCategory::CrossWiredId | FindingCategory::NamingInconsistency => true,
            _ => false,
        }
    }
}

#[derive(Debug, Clone)]
pub struct Finding {
    pub severity: Severity,
    pub category: FindingCategory,
    pub file_path: String,
    pub description: String,
    pub suggestion: Option<String>,
    /// Line number where the issue occurs, if any.
    pub line_number: Option<usize>,
    /// Additional context (the broken link text, the stale task text, ...).
    pub context: Option<String>,
    /// Whether `file_path` names a folder rather than a note file.
    pub is_folder: bool,
}

pub struct FindingV {
    pub severity: Severity,
    pub category: FindingCategory,
    pub file_path: Seq<char>,
    pub description: Seq<char>,
    pub suggestion: Option<Seq<char>>,
    pub line_number: Option<usize>,
    pub context: Option<Seq<char>>,
    pub is_folder: bool,
}

impl DeepView for Finding {
    type V = FindingV;

    open spec fn deep_view(&self) -> FindingV {
        FindingV {
            severity: self.severity,
            category: self.category,
            file_path: self.file_path@,
            description: self.description@,
            suggestion: self.suggestion.deep_view(),
            line_number: self.line_number,
            context: self.context.deep_view(),
            is_folder: self.is_folder,
        }
    }
}

/// The kind of content block extracted from a daily note.
#[derive(Debug, Clone, Copy, PartialEq, Eq, Structural)]
pub enum BlockKind {
    /// A headed section.
    Heading,
    /// Consecutive task lines not under a heading.
    TaskGroup,
    /// Free-text paragraph lines not under a heading.
    Paragraph,
}

/// A discrete content block of a daily note: the unit of filing.
#[derive(Debug, Clone)]
pub struct ContentBlock {
    pub kind: BlockKind,
    /// 1-based start line in the source note.
    pub start_line: usize,
    /// 1-based end line (inclusive).
    pub end_line: usize,
    /// The block's lines joined with `\n`.
    pub raw_text: String,
    /// For heading blocks, the heading text.
    pub heading: Option<String>,
    /// Heading level for heading blocks.
    pub heading_level: Option<u8>,
    pub tags: Vec<String>,
    pub mentions: Vec<String>,
    pub wiki_links: Vec<String>,
}

pub struct ContentBlockV {
    pub kind: BlockKind,
    pub start_line: usize,
    pub end_line: usize,
    pub raw_text: Seq<char>,
    pub heading: Option<Seq<char>>,
    pub heading_level: Option<u8>,
    pub tags: Seq<Seq<char>>,
    pub mentions: Seq<Seq<char>>,
    pub wiki_links: Seq<Seq<char>>,
}

impl DeepView for ContentBlock {
    type V = ContentBlockV;

    open spec fn deep_view(&self) -> ContentBlockV {
        ContentBlockV {
            kind: self.kind,
            start_line: self.start_line,
            end_line: self.end_line,
            raw_text: self.raw_text@,
            heading: self.heading.deep_view(),
            heading_level: self.heading_level,
            tags: self.tags.deep_view(),
            mentions: self.mentions.deep_view(),
            wiki_links: self.wiki_links.deep_view(),
        }
    }
}

/// A note that can serve as a filing destination for daily note content.
#[derive(Debug, Clone)]
pub struct FilingTarget {
    pub title: String,
    pub file_path: String,
    pub relative_path: String,
    /// ID from the content title, if any.
    pub jd_id: Option<String>,
    /// The folder path below `Notes/`.
    pub folder_path: String,
    /// Whether this is a hub/index note.
    pub is_hub: bool,
    pub section_headings: Vec<String>,
    pub tags: Vec<String>,
    pub mentions: Vec<String>,
}

pub struct FilingTargetV {
    pub title: Seq<char>,
    pub file_path: Seq<char>,
    pub relative_path: Seq<char>,
    pub jd_id: Option<Seq<char>>,
    pub folder_path: Seq<char>,
    pub is_hub: bool,
    pub section_headings: Seq<Seq<char>>,
    pub tags: Seq<Seq<char>>,
    pub mentions: Seq<Seq<char>>,
}

impl DeepView for FilingTarget {
    type V = FilingTargetV;

    open spec fn deep_view(&self) -> FilingTargetV {
        FilingTargetV {
            title: self.title@,
            file_path: self.file_path@,
            relative_path: self.relative_path@,
            jd_id: self.jd_id.deep_view(),
            folder_path: self.folder_path@,
            is_hub: self.is_hub,
            section_headings: self.section_headings.deep_view(),
            tags: self.tags.deep_view(),
            mentions: self.mentions.deep_view(),
        }
    }
}

/// Lightweight info about a daily note.
pub struct DailyNoteInfo {
    pub file_path: String,
    pub date_label: String,
}

/// Which periodic calendar note a task came from.
#[derive(Debug, Clone, Copy, PartialEq, Eq, Structural)]
pub enum CalendarKind {
    Daily,
    Weekly,
    Monthly,
    Quarterly,
    Yearly,
}

pub open spec fn calendar_kind_of(kind: NoteKind) -> Option<CalendarKind> {
    match kind {
        NoteKind::Daily => Some(CalendarKind::Daily),
        NoteKind::Weekly => Some(CalendarKind::Weekly),
        NoteKind::Monthly => Some(CalendarKind::Monthly),
        NoteKind::Quarterly => Some(CalendarKind::Quarterly),
        NoteKind::Yearly => Some(CalendarKind::Yearly),
        _ => None,
    }
}

impl CalendarKind {
    pub fn from_note_kind(kind: &NoteKind) -> (r: Option<CalendarKind>)
        ensures
            r == calendar_kind_of(*kind),
    {
        match kind {
            NoteKind::Daily => Some(CalendarKind::Daily),
            NoteKind::Weekly => Some(CalendarKind::Weekly),
            NoteKind::Monthly => Some(CalendarKind::Monthly),
            NoteKind::Quarterly => Some(CalendarKind::Quarterly),
            NoteKind::Yearly => Some(CalendarKind::Yearly),
            _ => None,
        }
    }
}

/// A task in the ranked backlog, resolved through its block ID.
#[derive(Debug, Clone)]
pub struct RankedTask {
    pub rank: u32,
    pub block_id: String,
    pub text: String,
    pub priority: u8,
    pub source_note_title: String,
    pub source_relative_path: String,
    pub line_number: usize,
    /// False when the block ID no longer resolves to a live task.
    pub resolved: bool,
    /// True when the ID resolves to a rescheduled (`[>]`) task of a calendar
    /// note: a greyed reschedule leftover, shown muted.
    pub is_ghost: bool,
    pub tags: Vec<String>,
    pub project_title: Option<String>,
    pub project_rank: Option<u32>,
    pub calendar_kind: Option<CalendarKind>,
    pub calendar_period: Option<String>,
}

/// An open task not yet in the ranked backlog.
#[derive(Debug, Clone)]
pub struct PoolTask {
    pub text: String,
    pub priority: u8,
    pub source_note_title: String,
    pub source_relative_path: String,
    pub line_number: usize,
    pub block_id: Option<String>,
    pub tags: Vec<String>,
    pub project_title: Option<String>,
    pub project_rank: Option<u32>,
    pub calendar_kind: Option<CalendarKind>,
    pub calendar_period: Option<String>,
}

#[derive(Debug, Clone)]
pub struct BacklogContext {
    pub name: String,
    pub ranked: Vec<RankedTask>,
    pub pool: Vec<PoolTask>,
    pub tags: Vec<String>,
}

#[derive(Debug, Clone)]
pub struct Backlog {
    pub contexts: Vec<BacklogContext>,
    pub control_note_title: Option<String>,
    pub warnings: Vec<String>,
}

/// One task in a project rollup (board view).
#[derive(Debug, Clone)]
pub struct BoardTask {
    pub text: String,
    pub priority: u8,
    pub state: TaskState,
    pub source_note_title: String,
    pub source_relative_path: String,
    pub line_number: usize,
    pub scheduled_to: Option<String>,
    pub block_id: Option<String>,
}

/// A resolved project folder with its rolled-up tasks.
#[derive(Debug, Clone)]
pub struct BoardProject {
    pub rank: u32,
    pub title: String,
    pub folder_relative_path: String,
    pub tasks: Vec<BoardTask>,
    pub open_count: usize,
    /// Counts indexed by priority: none, `!`, `!!`, `!!!`.
    pub priority_counts: [usize; 4],
}

/// A context tab of the board.
#[derive(Debug, Clone)]
pub struct BoardContext {
    pub name: String,
    pub projects: Vec<BoardProject>,
    /// Control-note references that matched no folder.
    pub unresolved: Vec<String>,
}

/// The full read-only board.
#[derive(Debug, Clone)]
pub struct ProjectBoard {
    pub contexts: Vec<BoardContext>,
    /// None when no `#np-projects` control note exists.
    pub control_note_title: Option<String>,
    pub warnings: Vec<String>,
}

pub struct RankedTaskV {
    pub rank: u32,
    pub block_id: Seq<char>,
    pub text: Seq<char>,
    pub priority: u8,
    pub source_note_title: Seq<char>,
    pub source_relative_path: Seq<char>,
    pub line_number: usize,
    pub resolved: bool,
    pub is_ghost: bool,
    pub tags: Seq<Seq<char>>,
    pub project_title: Option<Seq<char>>,
    pub project_rank: Option<u32>,
    pub calendar_kind: Option<CalendarKind>,
    pub calendar_period: Option<Seq<char>>,
}

impl DeepView for RankedTask {
    type V = RankedTaskV;

    open spec fn deep_view(&self) -> RankedTaskV {
        RankedTaskV {
            rank: self.rank,
            block_id: self.block_id@,
            text: self.text@,
            priority: self.priority,
            source_note_title: self.source_note_title@,
            source_relative_path: self.source_relative_path@,
            line_number: self.line_number,
            resolved: self.resolved,
            is_ghost: self.is_ghost,
            tags: self.tags.deep_view(),
            project_title: self.project_title.deep_view(),
            project_rank: self.project_rank,
            calendar_kind: self.calendar_kind,
            calendar_period: self.calendar_period.deep_view(),
        }
    }
}

pub struct PoolTaskV {
    pub text: Seq<char>,
    pub priority: u8,
    pub source_note_title: Seq<char>,
    pub source_relative_path: Seq<char>,
    pub line_number: usize,
    pub block_id: Option<Seq<char>>,
    pub tags: Seq<Seq<char>>,
    pub project_title: Option<Seq<char>>,
    pub project_rank: Option<u32>,
    pub calendar_kind: Option<CalendarKind>,
    pub calendar_period: Option<Seq<char>>,
}

impl DeepView for PoolTask {
    type V = PoolTaskV;

    open spec fn deep_view(&self) -> PoolTaskV {
        PoolTaskV {
            text: self.text@,
            priority: self.priority,
            source_note_title: self.source_note_title@,
            source_relative_path: self.source_relative_path@,
            line_number: self.line_number,
            block_id: self.block_id.deep_view(),
            tags: self.tags.deep_view(),
            project_title: self.project_title.deep_view(),
            project_rank: self.project_rank,
            calendar_kind: self.calendar_kind,
            calendar_period: self.calendar_period.deep_view(),
        }
    }
}

pub struct BacklogContextV {
    pub name: Seq<char>,
    pub ranked: Seq<RankedTaskV>,
    pub pool: Seq<PoolTaskV>,
    pub tags: Seq<Seq<char>>,
}

impl DeepView for BacklogContext {
    type V = BacklogContextV;

    open spec fn deep_view(&self) -> BacklogContextV {
        BacklogContextV {
            name: self.name@,
            ranked: self.ranked.deep_view(),
            pool: self.pool.deep_view(),
            tags: self.tags.deep_view(),
        }
    }
}

pub struct BacklogV {
    pub contexts: Seq<BacklogContextV>,
    pub control_note_title: Option<Seq<char>>,
    pub warnings: Seq<Seq<char>>,
}

impl DeepView for Backlog {
    type V = BacklogV;

    open spec fn deep_view(&self) -> BacklogV {
        BacklogV {
            contexts: self.contexts.deep_view(),
            control_note_title: self.control_note_title.deep_view(),
            warnings: self.warnings.deep_view(),
        }
    }
}

} // verus!

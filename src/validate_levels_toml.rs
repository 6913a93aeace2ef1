use vstd::prelude::*;
use vstd::string::StringExecFns;
use crate::text::{decimal, decimal_string};

verus! {

/// Exit code when only validation issues were found.
pub const EXIT_CODE_VALIDATION_ERROR: i32 = 1;

/// Exit code when an I/O issue, but no parse issue, was found.
pub const EXIT_CODE_IO_ERROR: i32 = 2;

/// Exit code when a parse issue was found.
pub const EXIT_CODE_PARSE_ERROR: i32 = 3;

/// The category of a validation issue.
#[derive(Debug, Clone, Copy, PartialEq, Eq, Structural)]
pub enum ValidationIssueKind {
    Io,
    Parse,
    Validation,
}

pub open spec fn kind_label(k: ValidationIssueKind) -> Seq<char> {
    match k {
        ValidationIssueKind::Io => "io"@,
        ValidationIssueKind::Parse => "parse"@,
        ValidationIssueKind::Validation => "validation"@,
    }
}

impl ValidationIssueKind {
    /// The lowercase label of the kind in reports.
    pub fn label(self) -> (r: &'static str)
        ensures
            r@ == kind_label(self),
    {
        match self {
            ValidationIssueKind::Io => "io",
            ValidationIssueKind::Parse => "parse",
            ValidationIssueKind::Validation => "validation",
        }
    }
}

/// One problem found in a catalog.
#[derive(Debug)]
pub struct ValidationIssue {
    pub kind: ValidationIssueKind,
    pub message: String,
}

/// The problems found across catalogs, in the order they were found.
#[derive(Debug)]
pub struct ValidationReport {
    pub issues: Vec<ValidationIssue>,
}

pub open spec fn has_kind(issues: Seq<ValidationIssue>, k: ValidationIssueKind) -> bool {
    exists|i: int| 0 <= i < issues.len() && (#[trigger] issues[i]).kind == k
}

/// The exit code for a set of issues: parse issues win over I/O issues, which win over
/// validation issues.
pub open spec fn exit_code_of(issues: Seq<ValidationIssue>) -> i32 {
    if has_kind(issues, ValidationIssueKind::Parse) {
        3
    } else if has_kind(issues, ValidationIssueKind::Io) {
        2
    } else {
        1
    }
}

/// The report's lines, one per issue, numbered from 1.
pub open spec fn issue_lines(issues: Seq<ValidationIssue>) -> Seq<char>
    decreases issues.len(),
{
    if issues.len() == 0 {
        Seq::empty()
    } else {
        issue_lines(issues.drop_last()) + "\n  "@ + decimal(issues.len()) + ". ["@ + kind_label(
            issues.last().kind,
        ) + "] "@ + issues.last().message@
    }
}

pub open spec fn report_text(issues: Seq<ValidationIssue>) -> Seq<char> {
    "Validation failed with "@ + decimal(issues.len()) + " issue(s):"@ + issue_lines(issues)
}

impl ValidationReport {
    pub fn new() -> (r: ValidationReport)
        ensures
            r.issues@.len() == 0,
    {
        ValidationReport { issues: Vec::new() }
    }

    /// Records an issue at the end of the report.
    pub fn push(&mut self, kind: ValidationIssueKind, message: String)
        ensures
            final(self).issues@ == old(self).issues@.push(ValidationIssue { kind, message }),
    {
        self.issues.push(ValidationIssue { kind, message });
    }

    /// Appends the issues of another report, in order.
    pub fn extend(&mut self, other: ValidationReport)
        ensures
            final(self).issues@ == old(self).issues@ + other.issues@,
    {
        let mut other = other;
        self.issues.append(&mut other.issues);
    }

    pub fn is_empty(&self) -> (r: bool)
        ensures
            r == (self.issues@.len() == 0),
    {
        self.issues.len() == 0
    }

    /// The process exit code for the report's issues.
    pub fn exit_code(&self) -> (r: i32)
        ensures
            r == exit_code_of(self.issues@),
    {
        let n = self.issues.len();
        let mut any_io = false;
        let mut i: usize = 0;
        while i < n
            invariant
                n == self.issues.len(),
                i <= n,
                forall|j: int| 0 <= j < i ==> self.issues@[j].kind != ValidationIssueKind::Parse,
                any_io == exists|j: int| 0 <= j < i && self.issues@[j].kind == ValidationIssueKind::Io,
            decreases n - i,
        {
            match self.issues[i].kind {
                ValidationIssueKind::Parse => {
                    assert(has_kind(self.issues@, ValidationIssueKind::Parse)) by {
                        assert(self.issues@[i as int].kind == ValidationIssueKind::Parse);
                    }
                    return EXIT_CODE_PARSE_ERROR;
                },
                ValidationIssueKind::Io => {
                    any_io = true;
                },
                ValidationIssueKind::Validation => {},
            }
            i = i + 1;
        }
        if any_io {
            EXIT_CODE_IO_ERROR
        } else {
            EXIT_CODE_VALIDATION_ERROR
        }
    }

    /// The report as printed: a header with the issue count, then one numbered line per issue.
    pub fn format_for_stderr(&self) -> (r: String)
        ensures
            r@ == report_text(self.issues@),
    {
        let n = self.issues.len();
        let mut lines = String::new();
        let mut i: usize = 0;
        assert(self.issues@.subrange(0, 0) =~= Seq::<ValidationIssue>::empty());
        while i < n
            invariant
                n == self.issues.len(),
                i <= n,
                lines@ == issue_lines(self.issues@.subrange(0, i as int)),
            decreases n - i,
        {
            proof {
                assert(self.issues@.subrange(0, i as int + 1).drop_last() =~= self.issues@.subrange(
                    0,
                    i as int,
                ));
            }
            let issue = &self.issues[i];
            lines = lines.concat("\n  ");
            lines = lines.concat(decimal_string(i as u128 + 1).as_str());
            lines = lines.concat(". [");
            lines = lines.concat(issue.kind.label());
            lines = lines.concat("] ");
            lines = lines.concat(issue.message.as_str());
            i = i + 1;
        }
        assert(self.issues@.subrange(0, n as int) =~= self.issues@);
        let out = String::from_str("Validation failed with ");
        let out = out.concat(decimal_string(n as u128).as_str());
        let out = out.concat(" issue(s):");
        out.concat(lines.as_str())
    }
}

} // verus!

verus! {

/// What checking one catalog entry against the disk found.
#[derive(Debug)]
pub enum EntryCheck {
    /// The entry has no `file` field.
    NoFile,
    /// The referenced level file (at `path`) does not exist.
    Missing { path: String },
    /// The referenced level file exists but could not be read.
    Unreadable { path: String, error: String },
    /// The referenced level file is not a valid level definition.
    Unparsable { path: String, error: String },
    /// The referenced level file is a valid level definition.
    Valid,
}

/// What reading one difficulty's catalog found.
#[derive(Debug)]
pub enum CatalogCheck {
    /// There is no `levels.toml`.
    Missing,
    /// `levels.toml` exists but could not be read.
    Unreadable { error: String },
    /// `levels.toml` is not a valid catalog.
    Unparsable { error: String },
    /// The catalog's entries, each checked, in catalog order.
    Entries { entries: Vec<EntryCheck> },
}

pub open spec fn issue_view(x: ValidationIssue) -> (ValidationIssueKind, Seq<char>) {
    (x.kind, x.message@)
}

pub open spec fn issue_views(issues: Seq<ValidationIssue>) -> Seq<(ValidationIssueKind, Seq<char>)> {
    issues.map_values(|x: ValidationIssue| issue_view(x))
}

/// The issue for the entry at `index`, if it has one.
pub open spec fn entry_issue(d: Seq<char>, toml: Seq<char>, index: nat, e: EntryCheck) -> Option<
    (ValidationIssueKind, Seq<char>),
> {
    match e {
        EntryCheck::NoFile => Some(
            (
                ValidationIssueKind::Validation,
                "Missing 'file' field for difficulty '"@ + d + "' at entry index "@ + decimal(index)
                    + " in "@ + toml,
            ),
        ),
        EntryCheck::Missing { path } => Some(
            (
                ValidationIssueKind::Io,
                "Referenced level JSON file does not exist: "@ + path@ + " (from "@ + toml + ")"@,
            ),
        ),
        EntryCheck::Unreadable { path, error } => Some(
            (
                ValidationIssueKind::Io,
                "Failed to read level JSON file: "@ + path@ + " ("@ + error@ + ")"@,
            ),
        ),
        EntryCheck::Unparsable { path, error } => Some(
            (
                ValidationIssueKind::Parse,
                "Failed to parse level JSON as LevelDefinition: "@ + path@ + " ("@ + error@ + ")"@,
            ),
        ),
        EntryCheck::Valid => None,
    }
}

/// The issues of the entries, in order: every entry is checked.
pub open spec fn entry_issues(d: Seq<char>, toml: Seq<char>, es: Seq<EntryCheck>) -> Seq<
    (ValidationIssueKind, Seq<char>),
>
    decreases es.len(),
{
    if es.len() == 0 {
        Seq::empty()
    } else {
        let rest = entry_issues(d, toml, es.drop_last());
        match entry_issue(d, toml, (es.len() - 1) as nat, es.last()) {
            Some(x) => rest.push(x),
            None => rest,
        }
    }
}

/// The issues of one difficulty: a single one when its catalog cannot be read, else those of
/// its entries.
pub open spec fn difficulty_issues(d: Seq<char>, toml: Seq<char>, c: CatalogCheck) -> Seq<
    (ValidationIssueKind, Seq<char>),
> {
    match c {
        CatalogCheck::Missing => seq![
            (
                ValidationIssueKind::Io,
                "levels.toml not found for difficulty '"@ + d + "': "@ + toml,
            ),
        ],
        CatalogCheck::Unreadable { error } => seq![
            (
                ValidationIssueKind::Io,
                "Failed to read levels.toml for difficulty '"@ + d + "': "@ + toml + " ("@ + error@
                    + ")"@,
            ),
        ],
        CatalogCheck::Unparsable { error } => seq![
            (
                ValidationIssueKind::Parse,
                "Failed to parse levels.toml for difficulty '"@ + d + "': "@ + toml + " ("@
                    + error@ + ")"@,
            ),
        ],
        CatalogCheck::Entries { entries } => entry_issues(d, toml, entries@),
    }
}

fn entry_issue_of(difficulty: &str, toml_path: &str, index: usize, e: &EntryCheck) -> (r: Option<
    ValidationIssue,
>)
    ensures
        match r {
            Some(x) => entry_issue(difficulty@, toml_path@, index as nat, *e) == Some(issue_view(x)),
            None => entry_issue(difficulty@, toml_path@, index as nat, *e) is None,
        },
{
    match e {
        EntryCheck::NoFile => {
            let m = String::from_str("Missing 'file' field for difficulty '");
            let m = m.concat(difficulty).concat("' at entry index ");
            let m = m.concat(decimal_string(index as u128).as_str()).concat(" in ").concat(toml_path);
            Some(ValidationIssue { kind: ValidationIssueKind::Validation, message: m })
        },
        EntryCheck::Missing { path } => {
            let m = String::from_str("Referenced level JSON file does not exist: ");
            let m = m.concat(path.as_str()).concat(" (from ").concat(toml_path).concat(")");
            Some(ValidationIssue { kind: ValidationIssueKind::Io, message: m })
        },
        EntryCheck::Unreadable { path, error } => {
            let m = String::from_str("Failed to read level JSON file: ");
            let m = m.concat(path.as_str()).concat(" (").concat(error.as_str()).concat(")");
            Some(ValidationIssue { kind: ValidationIssueKind::Io, message: m })
        },
        EntryCheck::Unparsable { path, error } => {
            let m = String::from_str("Failed to parse level JSON as LevelDefinition: ");
            let m = m.concat(path.as_str()).concat(" (").concat(error.as_str()).concat(")");
            Some(ValidationIssue { kind: ValidationIssueKind::Parse, message: m })
        },
        EntryCheck::Valid => None,
    }
}

/// The report for one difficulty, from what reading its catalog (at `toml_path`) and checking
/// its entries found. A catalog that is missing or cannot be read or parsed gives one issue;
/// otherwise each entry without a `file`, with a missing file, or with a file that is not a
/// valid level gives one issue, in catalog order.
pub fn validate_difficulty_levels_toml(difficulty: &str, toml_path: &str, catalog: &CatalogCheck) -> (r:
    ValidationReport)
    ensures
        issue_views(r.issues@) == difficulty_issues(difficulty@, toml_path@, *catalog),
{
    let mut report = ValidationReport::new();
    match catalog {
        CatalogCheck::Missing => {
            let m = String::from_str("levels.toml not found for difficulty '");
            let m = m.concat(difficulty).concat("': ").concat(toml_path);
            report.push(ValidationIssueKind::Io, m);
        },
        CatalogCheck::Unreadable { error } => {
            let m = String::from_str("Failed to read levels.toml for difficulty '");
            let m = m.concat(difficulty).concat("': ").concat(toml_path);
            let m = m.concat(" (").concat(error.as_str()).concat(")");
            report.push(ValidationIssueKind::Io, m);
        },
        CatalogCheck::Unparsable { error } => {
            let m = String::from_str("Failed to parse levels.toml for difficulty '");
            let m = m.concat(difficulty).concat("': ").concat(toml_path);
            let m = m.concat(" (").concat(error.as_str()).concat(")");
            report.push(ValidationIssueKind::Parse, m);
        },
        CatalogCheck::Entries { entries } => {
            let n = entries.len();
            let mut i: usize = 0;
            assert(entries@.subrange(0, 0) =~= Seq::<EntryCheck>::empty());
            assert(issue_views(report.issues@) =~= Seq::empty());
            while i < n
                invariant
                    n == entries.len(),
                    i <= n,
                    issue_views(report.issues@) == entry_issues(
                        difficulty@,
                        toml_path@,
                        entries@.subrange(0, i as int),
                    ),
                decreases n - i,
            {
                proof {
                    assert(entries@.subrange(0, i as int + 1).drop_last() =~= entries@.subrange(
                        0,
                        i as int,
                    ));
                }
                let ghost before = report.issues@;
                match entry_issue_of(difficulty, toml_path, i, &entries[i]) {
                    Some(x) => {
                        report.issues.push(x);
                        assert(issue_views(report.issues@) =~= issue_views(before).push(
                            issue_view(x),
                        ));
                    },
                    None => {},
                }
                i = i + 1;
            }
            assert(entries@.subrange(0, n as int) =~= entries@);
            return report;
        },
    }
    assert(issue_views(report.issues@) =~= difficulty_issues(difficulty@, toml_path@, *catalog));
    report
}

} // verus!

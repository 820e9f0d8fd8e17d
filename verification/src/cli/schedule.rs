//! Scheduled background cleanup.
//!
//! A unit is installed with the platform's own supervisor. The job survives reboots, costs nothing
//! while idle, and can be inspected and disabled with the tools the user already knows.
//!
//! Background runs are constrained: they never touch the caution tier, they honour a runtime cap,
//! and every run is journalled, because nobody is watching when they happen.
use vstd::prelude::*;
use vstd::string::*;
use crate::cli::args::{CleanArgs, FilterArgs, ScheduleInstallArgs};
use crate::cli::render::{Style, painted, styling_keeps_the_text};
use crate::config::ScheduleConfig;
use crate::journal::{RunModel, RunRecord, Trigger, failed_items};
use crate::model::{CandidateModel, Tier};
use crate::path::{join, join_path};
use crate::platform::{Os, Paths, PathsModel};
use crate::staleness::FilterModel;
use crate::text::{
    chars_of, decimal, decimal_text, group_parts_of_texts, has_part, join_text, joined,
    lemma_part_of_joined, lowered, same, slice_text, to_ascii_lower,
    trim_chars, trimmed, views, zero_padded, zero_padded_text,
};

verus! {

broadcast use crate::text::lemma_views_push;

/// When a scheduled run fires, normalised from the config's `cadence`.
#[derive(Debug, Clone, Copy, PartialEq, Eq, Structural)]
pub struct Cadence {
    /// Day of week, 0 = Sunday. `None` for monthly.
    pub weekday: Option<u8>,
    /// Day of month for monthly schedules.
    pub day: Option<u8>,
    pub hour: u8,
    pub minute: u8,
    /// Only fire on alternating weeks.
    pub biweekly: bool,
}

/// Sundays at 03:00: late enough that a laptop is usually idle, early enough that a missed run is
/// caught up before the user sits down.
pub open spec fn every_sunday() -> Cadence {
    Cadence { weekday: Some(0), day: None, hour: 3, minute: 0, biweekly: false }
}

/// The cadence of a name.
pub open spec fn cadence_named(name: Seq<char>) -> Option<Cadence> {
    if name == "daily"@ {
        Some(Cadence { weekday: None, ..every_sunday() })
    } else if name == "weekly"@ {
        Some(every_sunday())
    } else if name == "biweekly"@ || name == "fortnightly"@ {
        Some(Cadence { biweekly: true, ..every_sunday() })
    } else if name == "monthly"@ {
        Some(Cadence { weekday: None, day: Some(1), ..every_sunday() })
    } else {
        None
    }
}

/// A time of day.
pub open spec fn clock(hour: u8, minute: u8) -> Seq<char> {
    zero_padded(hour as nat, 2) + ":"@ + zero_padded(minute as nat, 2)
}

fn clock_text(hour: u8, minute: u8) -> (s: String)
    ensures
        s@ == clock(hour, minute),
{
    zero_padded_text(hour as u64, 2).concat(":").concat(
        zero_padded_text(minute as u64, 2).as_str(),
    )
}

impl Cadence {
    /// Reads `daily`, `weekly`, `biweekly` (or `fortnightly`) or `monthly`.
    pub fn parse(raw: &str) -> (r: Result<Self, String>)
        ensures
            match (r, cadence_named(lowered(trimmed(raw@)))) {
                (Ok(cadence), Some(named)) => cadence == named,
                (Err(e), None) => e@ == "unknown cadence `"@ + lowered(trimmed(raw@))
                    + "`. Use daily, weekly, biweekly or monthly."@,
                _ => false,
            },
    {
        let base = Cadence { weekday: Some(0), day: None, hour: 3, minute: 0, biweekly: false };
        let chars = trim_chars(&chars_of(raw));
        let total: usize = chars.len();
        let text = slice_text(&chars, 0, total);
        assert(text@ =~= trimmed(raw@));
        let name = to_ascii_lower(text.as_str());
        let name = name.as_str();
        if same(name, "daily") {
            Ok(Cadence { weekday: None, ..base })
        } else if same(name, "weekly") {
            Ok(base)
        } else if same(name, "biweekly") || same(name, "fortnightly") {
            Ok(Cadence { biweekly: true, ..base })
        } else if same(name, "monthly") {
            Ok(Cadence { weekday: None, day: Some(1), ..base })
        } else {
            Err(
                "unknown cadence `".to_owned().concat(name).concat(
                    "`. Use daily, weekly, biweekly or monthly.",
                ),
            )
        }
    }

    /// The calendar expression of systemd.
    pub open spec fn calendar(self) -> Seq<char> {
        (match (self.weekday, self.day) {
            (_, Some(day)) => "*-*-"@ + zero_padded(day as nat, 2) + " "@,
            (Some(_), None) => "Sun "@,
            (None, None) => "*-*-* "@,
        }) + clock(self.hour, self.minute) + ":00"@
    }

    /// systemd `OnCalendar=` expression.
    pub fn to_systemd(self) -> (s: String)
        ensures
            s@ == self.calendar(),
    {
        let days = match (self.weekday, self.day) {
            (_, Some(day)) => "*-*-".to_owned().concat(
                zero_padded_text(day as u64, 2).as_str(),
            ).concat(" "),
            (Some(_), None) => "Sun ".to_owned(),
            (None, None) => "*-*-* ".to_owned(),
        };
        days.concat(clock_text(self.hour, self.minute).as_str()).concat(":00")
    }

    /// The cadence in words.
    pub open spec fn words(self) -> Seq<char> {
        (match (self.weekday, self.day) {
            (_, Some(day)) => "monthly on day "@ + decimal(day as nat) + " at "@,
            (Some(_), None) => if self.biweekly {
                "every other Sunday at "@
            } else {
                "every Sunday at "@
            },
            (None, None) => "daily at "@,
        }) + clock(self.hour, self.minute)
    }

    pub fn describe(self) -> (s: String)
        ensures
            s@ == self.words(),
    {
        let days = match (self.weekday, self.day) {
            (_, Some(day)) => "monthly on day ".to_owned().concat(
                decimal_text(day as u128).as_str(),
            ).concat(" at "),
            (Some(_), None) => if self.biweekly {
                "every other Sunday at ".to_owned()
            } else {
                "every Sunday at ".to_owned()
            },
            (None, None) => "daily at ".to_owned(),
        };
        days.concat(clock_text(self.hour, self.minute).as_str())
    }
}

/// The riskiest of some tiers.
pub open spec fn riskiest(tiers: Seq<Tier>) -> Option<Tier>
    decreases tiers.len(),
{
    if tiers.len() == 0 {
        None
    } else {
        match riskiest(tiers.drop_last()) {
            Some(before) => if tiers.last().risk() >= before.risk() {
                Some(tiers.last())
            } else {
                Some(before)
            },
            None => Some(tiers.last()),
        }
    }
}

fn riskiest_of(tiers: &Vec<Tier>) -> (tier: Option<Tier>)
    ensures
        tier == riskiest(tiers@),
{
    let mut found: Option<Tier> = None;
    let mut i: usize = 0;
    assert(tiers@.take(0) =~= Seq::empty());
    while i < tiers.len()
        invariant
            i <= tiers@.len(),
            found == riskiest(tiers@.take(i as int)),
        decreases tiers@.len() - i,
    {
        assert(tiers@.take(i + 1).drop_last() =~= tiers@.take(i as int));
        found = match found {
            Some(before) => if tiers[i].level() >= before.level() {
                Some(tiers[i])
            } else {
                Some(before)
            },
            None => Some(tiers[i]),
        };
        i += 1;
    }
    assert(tiers@.take(tiers@.len() as int) =~= tiers@);
    found
}

fn copy_tiers(tiers: &Vec<Tier>) -> (copy: Vec<Tier>)
    ensures
        copy@ == tiers@,
{
    let mut copy: Vec<Tier> = Vec::new();
    let mut i: usize = 0;
    while i < tiers.len()
        invariant
            i <= tiers@.len(),
            copy@ == tiers@.take(i as int),
        decreases tiers@.len() - i,
    {
        copy.push(tiers[i]);
        i += 1;
        assert(tiers@.take(i as int) =~= tiers@.take(i - 1).push(tiers@[i - 1]));
    }
    assert(tiers@.take(tiers@.len() as int) =~= tiers@);
    copy
}

fn has_caution(tiers: &Vec<Tier>) -> (r: bool)
    ensures
        r == tiers@.contains(Tier::Caution),
{
    let mut i: usize = 0;
    while i < tiers.len()
        invariant
            i <= tiers@.len(),
            forall|k: int| 0 <= k < i ==> tiers@[k] != Tier::Caution,
        decreases tiers@.len() - i,
    {
        if tiers[i] == Tier::Caution {
            return true;
        }
        i += 1;
    }
    false
}

/// What a background job will do.
#[derive(Debug)]
pub struct SchedulePlan {
    pub cadence: Cadence,
    pub tiers: Vec<Tier>,
    pub older_than: u32,
    /// The job only reports until it is armed.
    pub dry_run: bool,
}

/// The name of the cadence to install: the one asked for, or the configured one.
pub open spec fn asked_cadence(config: ScheduleConfig, args: ScheduleInstallArgs) -> Seq<char> {
    match args.cadence {
        Some(cadence) => cadence@,
        None => config.cadence@,
    }
}

/// Decide what to install. A background job must never be able to remove something irreplaceable.
pub fn plan(config: &ScheduleConfig, args: &ScheduleInstallArgs) -> (r: Result<SchedulePlan, String>)
    ensures
        if args.tier@.contains(Tier::Caution) {
            r matches Err(e) && e@
                == "scheduled runs may not include the caution tier: those items can be irreplaceable and must be confirmed by a human"@
        } else {
            let asked = lowered(trimmed(asked_cadence(*config, *args)));
            match cadence_named(asked) {
                None => r matches Err(e) && e@ == "unknown cadence `"@ + asked
                    + "`. Use daily, weekly, biweekly or monthly."@,
                Some(cadence) => match r {
                    Ok(p) => {
                        &&& p.cadence == cadence
                        &&& p.tiers@ == if args.tier@.len() == 0 {
                            config.tiers@
                        } else {
                            args.tier@
                        }
                        &&& p.older_than == match args.older_than {
                            Some(days) => days,
                            None => config.older_than_days,
                        }
                        &&& p.dry_run == config.dry_run_first
                    },
                    Err(_) => false,
                },
            }
        },
{
    if has_caution(&args.tier) {
        return Err(
            "scheduled runs may not include the caution tier: those items can be irreplaceable and must be confirmed by a human".to_owned(),
        );
    }
    let asked = match &args.cadence {
        Some(cadence) => cadence.clone(),
        None => config.cadence.clone(),
    };
    let cadence = match Cadence::parse(asked.as_str()) {
        Ok(cadence) => cadence,
        Err(e) => return Err(e),
    };
    Ok(
        SchedulePlan {
            cadence,
            tiers: if args.tier.len() == 0 {
                copy_tiers(&config.tiers)
            } else {
                copy_tiers(&args.tier)
            },
            older_than: match args.older_than {
                Some(days) => days,
                None => config.older_than_days,
            },
            dry_run: config.dry_run_first,
        },
    )
}

/// An installed job is replaced only on request.
pub fn may_install(unit_path: &str, present: bool, force: bool) -> (r: Result<(), String>)
    ensures
        match r {
            Ok(_) => !present || force,
            Err(e) => present && !force && e@ == unit_path@
                + " already exists. Use --force to replace it."@,
        },
{
    if present && !force {
        Err(unit_path.to_owned().concat(" already exists. Use --force to replace it."))
    } else {
        Ok(())
    }
}

/// The tier that a scheduled run names.
pub open spec fn scheduled_tier(tiers: Seq<Tier>) -> Tier {
    match riskiest(tiers) {
        Some(tier) => tier,
        None => Tier::Safe,
    }
}

/// The command line of a scheduled run.
pub open spec fn command_of(exe: Seq<char>, tiers: Seq<Tier>, older_than: u32, dry_run: bool) -> Seq<
    Seq<char>,
> {
    let args = seq![
        exe,
        "clean"@,
        "--scheduled"@,
        "--yes"@,
        "--tier"@,
        scheduled_tier(tiers).name(),
        "--older-than"@,
        decimal(older_than as nat) + "d"@,
    ];
    if dry_run {
        args.push("--dry-run"@)
    } else {
        args
    }
}

/// The command line a scheduled run executes.
pub fn scheduled_command(exe: &str, tiers: &Vec<Tier>, older_than: u32, dry_run: bool) -> (args: Vec<
    String,
>)
    ensures
        views(args@) == command_of(exe@, tiers@, older_than, dry_run),
{
    let tier = match riskiest_of(tiers) {
        Some(tier) => tier,
        None => Tier::Safe,
    };
    let mut args: Vec<String> = Vec::new();
    args.push(exe.to_owned());
    args.push("clean".to_owned());
    args.push("--scheduled".to_owned());
    args.push("--yes".to_owned());
    args.push("--tier".to_owned());
    args.push(tier.as_str().to_owned());
    args.push("--older-than".to_owned());
    args.push(decimal_text(older_than as u128).concat("d"));
    if dry_run {
        args.push("--dry-run".to_owned());
    }
    assert(views(args@) =~= command_of(exe@, tiers@, older_than, dry_run));
    args
}

/// How a character stands in XML text.
pub open spec fn xml_entity(c: char) -> Seq<char> {
    if c == '&' {
        "&amp;"@
    } else if c == '<' {
        "&lt;"@
    } else if c == '>' {
        "&gt;"@
    } else {
        seq![c]
    }
}

/// How a text stands in XML.
pub open spec fn xml_escaped(s: Seq<char>) -> Seq<char>
    decreases s.len(),
{
    if s.len() == 0 {
        Seq::empty()
    } else {
        xml_escaped(s.drop_last()) + xml_entity(s.last())
    }
}

/// Escapes text for XML. A home directory may contain `&`.
pub fn escape_xml(raw: &str) -> (out: String)
    ensures
        out@ == xml_escaped(raw@),
{
    let chars = chars_of(raw);
    let mut out = String::new();
    let mut i: usize = 0;
    assert(out@ =~= xml_escaped(raw@.take(0)));
    while i < chars.len()
        invariant
            i <= chars@.len(),
            chars@ == raw@,
            out@ == xml_escaped(raw@.take(i as int)),
        decreases chars@.len() - i,
    {
        assert(raw@.take(i + 1).drop_last() =~= raw@.take(i as int));
        let c = chars[i];
        if c == '&' {
            out.append("&amp;");
        } else if c == '<' {
            out.append("&lt;");
        } else if c == '>' {
            out.append("&gt;");
        } else {
            let ghost before = out@;
            out.push(c);
            assert(out@ =~= before + seq![c]);
        }
        i += 1;
    }
    assert(raw@.take(raw@.len() as int) =~= raw@);
    out
}

/// The arguments of a launchd job.
pub open spec fn plist_arguments(command: Seq<Seq<char>>) -> Seq<Seq<char>> {
    Seq::new(
        command.len(),
        |i: int| "        <string>"@ + xml_escaped(command[i]) + "</string>"@,
    )
}

fn write_arguments(command: &Vec<String>) -> (out: Vec<String>)
    ensures
        views(out@) == plist_arguments(views(command@)),
{
    let mut out: Vec<String> = Vec::new();
    let mut i: usize = 0;
    while i < command.len()
        invariant
            i <= command@.len(),
            out@.len() == i,
            forall|k: int|
                0 <= k < i ==> (#[trigger] out@[k])@ == plist_arguments(views(command@))[k],
        decreases command@.len() - i,
    {
        assert(views(command@)[i as int] == command@[i as int]@);
        out.push(
            "        <string>".to_owned().concat(escape_xml(command[i].as_str()).as_str()).concat(
                "</string>",
            ),
        );
        i += 1;
    }
    assert(views(out@) =~= plist_arguments(views(command@)));
    out
}

/// When a launchd job fires.
pub open spec fn plist_calendar(cadence: Cadence) -> Seq<char> {
    "        <key>Hour</key><integer>"@ + decimal(cadence.hour as nat)
        + "</integer>\n        <key>Minute</key><integer>"@ + decimal(cadence.minute as nat)
        + "</integer>"@ + (match cadence.weekday {
        Some(weekday) => "\n        <key>Weekday</key><integer>"@ + decimal(weekday as nat)
            + "</integer>"@,
        None => ""@,
    }) + (match cadence.day {
        Some(day) => "\n        <key>Day</key><integer>"@ + decimal(day as nat) + "</integer>"@,
        None => ""@,
    })
}

fn write_calendar(cadence: Cadence) -> (out: String)
    ensures
        out@ == plist_calendar(cadence),
{
    let weekday = match cadence.weekday {
        Some(weekday) => "\n        <key>Weekday</key><integer>".to_owned().concat(
            decimal_text(weekday as u128).as_str(),
        ).concat("</integer>"),
        None => "".to_owned(),
    };
    let day = match cadence.day {
        Some(day) => "\n        <key>Day</key><integer>".to_owned().concat(
            decimal_text(day as u128).as_str(),
        ).concat("</integer>"),
        None => "".to_owned(),
    };
    "        <key>Hour</key><integer>".to_owned().concat(
        decimal_text(cadence.hour as u128).as_str(),
    ).concat("</integer>\n        <key>Minute</key><integer>").concat(
        decimal_text(cadence.minute as u128).as_str(),
    ).concat("</integer>").concat(weekday.as_str()).concat(day.as_str())
}

/// What precedes the arguments of a launchd job.
pub const PLIST_HEAD: &'static str = r#"<?xml version="1.0" encoding="UTF-8"?>
<!DOCTYPE plist PUBLIC "-//Apple//DTD PLIST 1.0//EN" "http://www.apple.com/DTDs/PropertyList-1.0.dtd">
<plist version="1.0">
<dict>
    <key>Label</key>
    <string>dev.reclaim.cleanup</string>
    <key>ProgramArguments</key>
    <array>
"#;

/// What stands between the arguments and the calendar of a launchd job.
pub const PLIST_MIDDLE: &'static str = r#"
    </array>
    <key>StartCalendarInterval</key>
    <dict>
"#;

/// What follows the calendar of a launchd job: it must never compete with a build.
pub const PLIST_PRIORITY: &'static str = r#"
    </dict>
    <!-- Background priority: this must never compete with a build for IO. -->
    <key>ProcessType</key>
    <string>Background</string>
    <key>LowPriorityIO</key>
    <true/>
    <key>Nice</key>
    <integer>10</integer>
    <!-- Catch up on a run missed while the machine was asleep. -->
    <key>RunAtLoad</key>
    <false/>
    <key>StandardOutPath</key>
    <string>"#;

/// A launchd job.
pub open spec fn plist_of(command: Seq<Seq<char>>, cadence: Cadence, log_dir: Seq<char>) -> Seq<
    char,
> {
    PLIST_HEAD@ + joined(plist_arguments(command), "\n"@) + PLIST_MIDDLE@ + plist_calendar(cadence)
        + PLIST_PRIORITY@ + log_dir
        + "/scheduled.log</string>\n    <key>StandardErrorPath</key>\n    <string>"@ + log_dir
        + "/scheduled.log</string>\n</dict>\n</plist>\n"@
}

/// A launchd job.
pub fn launchd_plist(command: &Vec<String>, cadence: Cadence, log_dir: &str) -> (out: String)
    ensures
        out@ == plist_of(views(command@), cadence, log_dir@),
{
    PLIST_HEAD.to_owned().concat(join_text(&write_arguments(command), "\n").as_str()).concat(
        PLIST_MIDDLE,
    ).concat(write_calendar(cadence).as_str()).concat(PLIST_PRIORITY).concat(log_dir).concat(
        "/scheduled.log</string>\n    <key>StandardErrorPath</key>\n    <string>",
    ).concat(log_dir).concat("/scheduled.log</string>\n</dict>\n</plist>\n")
}

/// A systemd service.
pub open spec fn service_of(command: Seq<Seq<char>>, max_runtime_minutes: u32) -> Seq<char> {
    "[Unit]\nDescription=reclaim scheduled cleanup\n\n[Service]\nType=oneshot\nExecStart="@
        + joined(command, " "@)
        + "\n# Background priority: never compete with an interactive build for IO.\nNice=10\nIOSchedulingClass=idle\nRuntimeMaxSec="@
        + decimal(max_runtime_minutes as nat) + "min\n"@
}

/// A systemd service.
pub fn systemd_service(command: &Vec<String>, max_runtime_minutes: u32) -> (out: String)
    ensures
        out@ == service_of(views(command@), max_runtime_minutes),
{
    "[Unit]\nDescription=reclaim scheduled cleanup\n\n[Service]\nType=oneshot\nExecStart=".to_owned().concat(
        join_text(command, " ").as_str(),
    ).concat(
        "\n# Background priority: never compete with an interactive build for IO.\nNice=10\nIOSchedulingClass=idle\nRuntimeMaxSec=",
    ).concat(decimal_text(max_runtime_minutes as u128).as_str()).concat("min\n")
}

/// A systemd timer.
pub open spec fn timer_of(cadence: Cadence) -> Seq<char> {
    "[Unit]\nDescription=reclaim scheduled cleanup timer\n\n[Timer]\nOnCalendar="@
        + cadence.calendar()
        + "\n# Catch up on a run missed while the machine was off.\nPersistent=true\nRandomizedDelaySec=30min\n\n[Install]\nWantedBy=timers.target\n"@
}

/// A systemd timer.
pub fn systemd_timer(cadence: Cadence) -> (out: String)
    ensures
        out@ == timer_of(cadence),
{
    "[Unit]\nDescription=reclaim scheduled cleanup timer\n\n[Timer]\nOnCalendar=".to_owned().concat(
        cadence.to_systemd().as_str(),
    ).concat(
        "\n# Catch up on a run missed while the machine was off.\nPersistent=true\nRandomizedDelaySec=30min\n\n[Install]\nWantedBy=timers.target\n",
    )
}

/// A file of a background job.
#[derive(Debug)]
pub struct UnitFile {
    pub path: String,
    pub contents: String,
}

impl View for UnitFile {
    type V = (Seq<char>, Seq<char>);

    open spec fn view(&self) -> (Seq<char>, Seq<char>) {
        (self.path@, self.contents@)
    }
}

/// Where a background job is installed.
pub open spec fn unit_of(paths: PathsModel) -> Option<Seq<char>> {
    match paths.os {
        Os::MacOs => Some(
            join(paths.home, "Library/LaunchAgents/dev.reclaim.cleanup.plist"@),
        ),
        Os::Linux => Some(join(paths.config_dir, "systemd/user/reclaim.timer"@)),
        Os::Other => None,
    }
}

/// Where a background job is installed.
pub fn unit_path(paths: &Paths) -> (r: Result<String, String>)
    ensures
        match (r, unit_of(paths@)) {
            (Ok(path), Some(expected)) => path@ == expected,
            (Err(e), None) => e@
                == "scheduled cleanup is only supported on macOS and Linux"@,
            _ => false,
        },
{
    match paths.os() {
        Os::MacOs => Ok(paths.home_join("Library/LaunchAgents/dev.reclaim.cleanup.plist")),
        Os::Linux => Ok(join_path(paths.config_dir().as_str(), "systemd/user/reclaim.timer")),
        Os::Other => Err("scheduled cleanup is only supported on macOS and Linux".to_owned()),
    }
}

/// The files of a background job, the unit itself last. A systemd timer refers to a service.
pub open spec fn files_of(
    paths: PathsModel,
    command: Seq<Seq<char>>,
    cadence: Cadence,
    max_runtime_minutes: u32,
) -> Seq<(Seq<char>, Seq<char>)> {
    match (paths.os, unit_of(paths)) {
        (Os::MacOs, Some(unit)) => seq![
            (unit, plist_of(command, cadence, join(paths.state_dir, "reclaim"@))),
        ],
        (Os::Linux, Some(unit)) => seq![
            (
                join(paths.config_dir, "systemd/user/reclaim.service"@),
                service_of(command, max_runtime_minutes),
            ),
            (unit, timer_of(cadence)),
        ],
        _ => Seq::empty(),
    }
}

/// The files of a background job, the unit itself last.
pub fn render_unit(
    paths: &Paths,
    command: &Vec<String>,
    cadence: Cadence,
    max_runtime_minutes: u32,
) -> (r: Result<Vec<UnitFile>, String>)
    ensures
        match r {
            Ok(files) => unit_of(paths@) is Some && views(files@) == files_of(
                paths@,
                views(command@),
                cadence,
                max_runtime_minutes,
            ),
            Err(e) => unit_of(paths@) is None && e@
                == "scheduled cleanup is only supported on macOS and Linux"@,
        },
{
    let path = match unit_path(paths) {
        Ok(path) => path,
        Err(e) => return Err(e),
    };
    let mut files: Vec<UnitFile> = Vec::new();
    match paths.os() {
        Os::MacOs => {
            let log_dir = join_path(paths.state_dir().as_str(), "reclaim");
            files.push(
                UnitFile {
                    path,
                    contents: launchd_plist(command, cadence, log_dir.as_str()),
                },
            );
        },
        _ => {
            files.push(
                UnitFile {
                    path: join_path(
                        paths.config_dir().as_str(),
                        "systemd/user/reclaim.service",
                    ),
                    contents: systemd_service(command, max_runtime_minutes),
                },
            );
            files.push(UnitFile { path, contents: systemd_timer(cadence) });
        },
    }
    assert(views(files@) =~= files_of(paths@, views(command@), cadence, max_runtime_minutes));
    Ok(files)
}

/// The names of tiers.
pub open spec fn tier_names(tiers: Seq<Tier>) -> Seq<Seq<char>> {
    Seq::new(tiers.len(), |i: int| tiers[i].name())
}

fn list_tiers(tiers: &Vec<Tier>) -> (out: String)
    ensures
        out@ == joined(tier_names(tiers@), ", "@),
{
    let mut names: Vec<String> = Vec::new();
    let mut i: usize = 0;
    while i < tiers.len()
        invariant
            i <= tiers@.len(),
            names@.len() == i,
            forall|k: int| 0 <= k < i ==> (#[trigger] names@[k])@ == tiers@[k].name(),
        decreases tiers@.len() - i,
    {
        names.push(tiers[i].as_str().to_owned());
        i += 1;
    }
    assert(views(names@) =~= tier_names(tiers@));
    join_text(&names, ", ")
}

/// What is said once a job is installed.
pub open spec fn installed_text(p: SchedulePlan, unit_path: Seq<char>, enabled: bool) -> Seq<char> {
    "Installed a background cleanup, running "@ + p.cadence.words() + ".\n  unit:      "@
        + unit_path + "\n  tiers:     "@ + joined(tier_names(p.tiers@), ", "@)
        + "\n  older than "@ + decimal(p.older_than as nat) + " days\n"@ + (if p.dry_run {
        "\n"@ + painted(
            enabled,
            "33"@,
            "The first run only reports what it would do. Check `reclaim history`, then set schedule.dry_run_first = false in your config to arm it."@,
        ) + "\n"@
    } else {
        ""@
    }) + (if p.cadence.biweekly {
        painted(
            enabled,
            "2"@,
            "Biweekly is implemented as a weekly trigger that skips odd weeks, since neither launchd nor systemd expresses fortnightly directly."@,
        ) + "\n"@
    } else {
        ""@
    })
}

/// What is said once a job is installed.
pub fn installed(p: &SchedulePlan, unit_path: &str, style: &Style) -> (out: String)
    ensures
        out@ == installed_text(*p, unit_path@, style@),
{
    let unarmed = if p.dry_run {
        "\n".to_owned().concat(
            style.yellow(
                "The first run only reports what it would do. Check `reclaim history`, then set schedule.dry_run_first = false in your config to arm it.",
            ).as_str(),
        ).concat("\n")
    } else {
        "".to_owned()
    };
    let biweekly = if p.cadence.biweekly {
        style.dim(
            "Biweekly is implemented as a weekly trigger that skips odd weeks, since neither launchd nor systemd expresses fortnightly directly.",
        ).concat("\n")
    } else {
        "".to_owned()
    };
    "Installed a background cleanup, running ".to_owned().concat(
        p.cadence.describe().as_str(),
    ).concat(".\n  unit:      ").concat(unit_path).concat("\n  tiers:     ").concat(
        list_tiers(&p.tiers).as_str(),
    ).concat("\n  older than ").concat(decimal_text(p.older_than as u128).as_str()).concat(
        " days\n",
    ).concat(unarmed.as_str()).concat(biweekly.as_str())
}

/// The latest of the runs, newest first, that the scheduler started.
pub open spec fn last_scheduled(runs: Seq<RunModel>) -> Option<RunModel>
    decreases runs.len(),
{
    if runs.len() == 0 {
        None
    } else if runs[0].trigger == Trigger::Scheduled {
        Some(runs[0])
    } else {
        last_scheduled(runs.skip(1))
    }
}

fn find_scheduled(records: &Vec<RunRecord>) -> (found: Option<&RunRecord>)
    ensures
        match found {
            Some(record) => last_scheduled(views(records@)) == Some(record@),
            None => last_scheduled(views(records@)) is None,
        },
{
    let ghost all = views(records@);
    let mut i: usize = 0;
    assert(all.skip(0) =~= all);
    while i < records.len()
        invariant
            i <= records@.len(),
            all == views(records@),
            last_scheduled(all) == last_scheduled(all.skip(i as int)),
        decreases records@.len() - i,
    {
        assert(all.skip(i as int)[0] == records@[i as int]@);
        if records[i].trigger == Trigger::Scheduled {
            return Some(&records[i]);
        }
        assert(all.skip(i as int).skip(1) =~= all.skip(i + 1));
        i += 1;
    }
    None
}

/// What is said of the last background run.
pub open spec fn last_run_text(last: Option<RunModel>, enabled: bool) -> Seq<char> {
    match last {
        Some(run) => "  last background run: "@ + run.line() + "\n"@ + (if failed_items(
            run.items,
        ).len() > 0 {
            "  "@ + painted(
                enabled,
                "31"@,
                decimal(failed_items(run.items).len()) + " item(s) failed"@,
            ) + "\n"@
        } else {
            ""@
        }),
        None => "  "@ + painted(enabled, "2"@, "has not run yet"@) + "\n"@,
    }
}

/// What is said of the installed job, or that there is none.
pub open spec fn status_text(
    unit_path: Seq<char>,
    cadence: Option<Cadence>,
    runs: Seq<RunModel>,
    enabled: bool,
) -> Seq<char> {
    match cadence {
        None => "No scheduled cleanup is installed.\n"@ + painted(
            enabled,
            "2"@,
            "Install one with: reclaim schedule install --cadence weekly"@,
        ) + "\n"@,
        Some(cadence) => painted(enabled, "32"@, "installed"@) + " "@ + unit_path
            + "\n  cadence: "@ + cadence.words() + "\n"@ + last_run_text(
            last_scheduled(runs),
            enabled,
        ),
    }
}

/// The state of the background job. `present` tells whether its unit is there.
pub fn status(
    unit_path: &str,
    present: bool,
    config: &ScheduleConfig,
    recent: &Vec<RunRecord>,
    style: &Style,
) -> (r: Result<String, String>)
    requires
        present && last_scheduled(views(recent@)) is Some ==> last_scheduled(
            views(recent@),
        )->0.line_fits(),
    ensures
        if !present {
            r matches Ok(text) && text@ == status_text(unit_path@, None, views(recent@), style@)
        } else {
            let asked = lowered(trimmed(config.cadence@));
            match cadence_named(asked) {
                Some(cadence) => r matches Ok(text) && text@ == status_text(
                    unit_path@,
                    Some(cadence),
                    views(recent@),
                    style@,
                ),
                None => r matches Err(e) && e@ == "unknown cadence `"@ + asked
                    + "`. Use daily, weekly, biweekly or monthly."@,
            }
        },
{
    if !present {
        return Ok(
            "No scheduled cleanup is installed.\n".to_owned().concat(
                style.dim(
                    "Install one with: reclaim schedule install --cadence weekly",
                ).as_str(),
            ).concat("\n"),
        );
    }
    let cadence = match Cadence::parse(config.cadence.as_str()) {
        Ok(cadence) => cadence,
        Err(e) => return Err(e),
    };
    let last = match find_scheduled(recent) {
        Some(run) => {
            let failed = run.failures();
            assert(views(failed@).len() == failed@.len());
            let failures = if failed.len() > 0 {
                "  ".to_owned().concat(
                    style.red(
                        decimal_text(failed.len() as u128).concat(" item(s) failed").as_str(),
                    ).as_str(),
                ).concat("\n")
            } else {
                "".to_owned()
            };
            "  last background run: ".to_owned().concat(run.summary().as_str()).concat("\n").concat(
                failures.as_str(),
            )
        },
        None => "  ".to_owned().concat(style.dim("has not run yet").as_str()).concat("\n"),
    };
    Ok(
        style.green("installed").concat(" ").concat(unit_path).concat("\n  cadence: ").concat(
            cadence.describe().as_str(),
        ).concat("\n").concat(last.as_str()),
    )
}

/// What is said of a removal. `present` tells whether there was a job.
pub fn uninstalled(unit_path: &str, present: bool, style: &Style) -> (out: String)
    ensures
        out@ == if present {
            painted(style@, "32"@, "ok"@) + " removed "@ + unit_path@ + "\n"@
        } else {
            "Nothing to uninstall.\n"@
        },
{
    if present {
        style.green("ok").concat(" removed ").concat(unit_path).concat("\n")
    } else {
        "Nothing to uninstall.\n".to_owned()
    }
}

/// The cleanup that a background job would run, right now.
pub fn run_now(config: &ScheduleConfig, dry_run: bool) -> (args: CleanArgs)
    ensures
        args.filter.tier == riskiest(config.tiers@),
        args.filter.older_than == Some(config.older_than_days),
        args.filter.min_size is None,
        args.filter.group@.len() == 0,
        args.filter.provider@.len() == 0,
        !args.filter.include_active,
        args.dry_run == (dry_run || config.dry_run_first),
        args.yes,
        !args.trash,
        !args.purge,
        !args.json,
        args.scheduled,
{
    CleanArgs {
        filter: FilterArgs {
            tier: riskiest_of(&config.tiers),
            older_than: Some(config.older_than_days),
            min_size: None,
            group: Vec::new(),
            provider: Vec::new(),
            include_active: false,
        },
        dry_run: dry_run || config.dry_run_first,
        yes: true,
        trash: false,
        purge: false,
        json: false,
        scheduled: true,
    }
}

proof fn lemma_riskiest(tiers: Seq<Tier>)
    ensures
        tiers.len() > 0 ==> riskiest(tiers) is Some && tiers.contains(riskiest(tiers)->0),
        tiers.len() == 0 ==> riskiest(tiers) is None,
    decreases tiers.len(),
{
    if tiers.len() > 0 {
        let fewer = tiers.drop_last();
        lemma_riskiest(fewer);
        assert(tiers[tiers.len() - 1] == tiers.last());
        if fewer.len() > 0 {
            let k = choose|k: int| 0 <= k < fewer.len() && fewer[k] == riskiest(fewer)->0;
            assert(tiers[k] == fewer[k]);
        }
    }
}

/// A background run whose tiers leave out the caution tier never reaches it.
pub proof fn background_runs_spare_the_caution_tier(tiers: Seq<Tier>)
    requires
        !tiers.contains(Tier::Caution),
    ensures
        scheduled_tier(tiers) != Tier::Caution,
{
    lemma_riskiest(tiers);
}

/// What a plan lets a background run touch is among the tiers that it names: its command names the
/// riskiest of them.
pub proof fn a_schedule_names_one_of_its_tiers(tiers: Seq<Tier>)
    requires
        tiers.len() > 0,
    ensures
        tiers.contains(scheduled_tier(tiers)),
{
    lemma_riskiest(tiers);
}

proof fn lemma_riskiest_bounds(tiers: Seq<Tier>)
    ensures
        riskiest(tiers) matches Some(tier) ==> forall|i: int|
            0 <= i < tiers.len() ==> (#[trigger] tiers[i]).risk() <= tier.risk(),
    decreases tiers.len(),
{
    if tiers.len() > 0 {
        let fewer = tiers.drop_last();
        lemma_riskiest_bounds(fewer);
        lemma_riskiest(fewer);
        assert forall|i: int| 0 <= i < tiers.len() implies (#[trigger] tiers[i]).risk() <= riskiest(
            tiers,
        )->0.risk() by {
            if i < fewer.len() {
                assert(fewer[i] == tiers[i]);
            }
        }
    }
}

/// The tier that a scheduled run names is the riskiest of its tiers: the caution tier where that is
/// one of them, else the review tier where that is one of them, else the safe tier. So each of them
/// is within the ceiling of the run, and no tier above all of them is.
pub proof fn a_scheduled_run_covers_its_tiers(tiers: Seq<Tier>)
    ensures
        forall|i: int| 0 <= i < tiers.len() ==> (#[trigger] tiers[i]).risk() <= scheduled_tier(
            tiers,
        ).risk(),
        tiers.contains(Tier::Caution) ==> scheduled_tier(tiers) == Tier::Caution,
        !tiers.contains(Tier::Caution) && tiers.contains(Tier::Review) ==> scheduled_tier(tiers)
            == Tier::Review,
        !tiers.contains(Tier::Caution) && !tiers.contains(Tier::Review) ==> scheduled_tier(tiers)
            == Tier::Safe,
        tiers.len() > 0 ==> riskiest(tiers) == Some(scheduled_tier(tiers)),
        tiers.len() == 0 ==> riskiest(tiers) is None,
{
    lemma_riskiest(tiers);
    lemma_riskiest_bounds(tiers);
    if tiers.contains(Tier::Caution) {
        let i = choose|i: int| 0 <= i < tiers.len() && tiers[i] == Tier::Caution;
        assert(tiers[i].risk() == 2);
    }
    if tiers.contains(Tier::Review) {
        let i = choose|i: int| 0 <= i < tiers.len() && tiers[i] == Tier::Review;
        assert(tiers[i].risk() == 1);
    }
}

/// What a scheduled run whose tiers are given may remove: under the ceiling that its command names,
/// a candidate of each of these tiers passes a filter that asks for nothing else.
pub proof fn a_scheduled_run_reaches_each_of_its_tiers(
    tiers: Seq<Tier>,
    filter: FilterModel,
    c: CandidateModel,
)
    requires
        tiers.contains(c.tier),
        filter.passes(c),
    ensures
        (FilterModel { max_tier: Some(scheduled_tier(tiers)), ..filter }).passes(c),
        riskiest(tiers) is Some,
        (FilterModel { max_tier: riskiest(tiers), ..filter }).passes(c),
{
    a_scheduled_run_covers_its_tiers(tiers);
    let i = choose|i: int| 0 <= i < tiers.len() && tiers[i] == c.tier;
    assert(tiers[i].risk() <= scheduled_tier(tiers).risk());
}

/// The command of a scheduled run agrees in advance, names its ceiling and its age in days, and is
/// a dry run exactly where that is asked for.
pub proof fn a_scheduled_command_says_what_it_does(
    exe: Seq<char>,
    tiers: Seq<Tier>,
    older_than: u32,
    dry_run: bool,
)
    ensures
        ({
            let command = command_of(exe, tiers, older_than, dry_run);
            &&& command[0] == exe && command[1] == "clean"@
            &&& command.contains("--scheduled"@) && command.contains("--yes"@)
            &&& command[4] == "--tier"@
            &&& tiers.contains(Tier::Caution) ==> command[5] == "caution"@
            &&& !tiers.contains(Tier::Caution) && tiers.contains(Tier::Review) ==> command[5]
                == "review"@
            &&& !tiers.contains(Tier::Caution) && !tiers.contains(Tier::Review) ==> command[5]
                == "safe"@
            &&& command[6] == "--older-than"@ && command[7] == decimal(older_than as nat) + "d"@
            &&& command.len() == if dry_run {
                9int
            } else {
                8
            }
            &&& dry_run ==> command[8] == "--dry-run"@
        }),
{
    a_scheduled_run_covers_its_tiers(tiers);
    let command = command_of(exe, tiers, older_than, dry_run);
    assert(command[2] == "--scheduled"@ && command[3] == "--yes"@);
}

/// The last background run is the first of the runs, newest first, that the scheduler started.
pub proof fn the_newest_scheduled_run_is_told(runs: Seq<RunModel>)
    ensures
        last_scheduled(runs) is None <==> forall|i: int|
            0 <= i < runs.len() ==> (#[trigger] runs[i]).trigger != Trigger::Scheduled,
        last_scheduled(runs) matches Some(run) ==> exists|i: int|
            0 <= i < runs.len() && #[trigger] runs[i] == run && run.trigger == Trigger::Scheduled
                && forall|k: int|
                0 <= k < i ==> (#[trigger] runs[k]).trigger != Trigger::Scheduled,
    decreases runs.len(),
{
    if runs.len() > 0 {
        let rest = runs.skip(1);
        the_newest_scheduled_run_is_told(rest);
        if runs[0].trigger != Trigger::Scheduled {
            assert forall|i: int| 1 <= i < runs.len() implies #[trigger] runs[i] == rest[i - 1] by {
            }
            if let Some(run) = last_scheduled(rest) {
                let i = choose|i: int|
                    0 <= i < rest.len() && #[trigger] rest[i] == run && run.trigger
                        == Trigger::Scheduled && forall|k: int|
                        0 <= k < i ==> (#[trigger] rest[k]).trigger != Trigger::Scheduled;
                assert(runs[i + 1] == run);
                assert forall|k: int| 0 <= k < i + 1 implies (#[trigger] runs[k]).trigger
                    != Trigger::Scheduled by {
                    if k > 0 {
                        assert(runs[k] == rest[k - 1]);
                    }
                }
            } else {
                assert forall|i: int| 0 <= i < runs.len() implies (#[trigger] runs[i]).trigger
                    != Trigger::Scheduled by {
                    if i > 0 {
                        assert(runs[i] == rest[i - 1]);
                    }
                }
            }
        }
    }
}

/// Text stands in XML with its markup escaped, piece by piece, and nothing else of it changed.
pub proof fn escaping_keeps_the_text(a: Seq<char>, b: Seq<char>, c: char)
    ensures
        xml_escaped(a + b) == xml_escaped(a) + xml_escaped(b),
        xml_escaped(seq!['&']) == "&amp;"@,
        xml_escaped(seq!['<']) == "&lt;"@,
        xml_escaped(seq!['>']) == "&gt;"@,
        c != '&' && c != '<' && c != '>' ==> xml_escaped(seq![c]) == seq![c],
    decreases b.len(),
{
    lemma_escaped_one('&');
    lemma_escaped_one('<');
    lemma_escaped_one('>');
    lemma_escaped_one(c);
    if b.len() > 0 {
        escaping_keeps_the_text(a, b.drop_last(), c);
        assert((a + b).drop_last() =~= a + b.drop_last());
        assert(xml_escaped(a) + xml_escaped(b.drop_last()) + xml_entity(b.last()) =~= xml_escaped(a)
            + (xml_escaped(b.drop_last()) + xml_entity(b.last())));
    } else {
        assert(a + b =~= a);
        assert(xml_escaped(a) + xml_escaped(b) =~= xml_escaped(a));
    }
}

proof fn lemma_escaped_one(c: char)
    ensures
        xml_escaped(seq![c]) == xml_entity(c),
{
    assert(seq![c].drop_last() =~= Seq::empty());
    assert(xml_escaped(Seq::empty()) + xml_entity(c) =~= xml_entity(c));
}

/// A cadence by name: daily has no day of its own, weekly and every other week fall on a Sunday,
/// monthly on the first; all at three in the morning, and nothing else is a cadence.
pub proof fn a_cadence_falls_on_its_day(name: Seq<char>)
    ensures
        cadence_named(name) is Some <==> name == "daily"@ || name == "weekly"@ || name
            == "biweekly"@ || name == "fortnightly"@ || name == "monthly"@,
        cadence_named(name) matches Some(c) ==> {
            &&& c.hour == 3 && c.minute == 0
            &&& (c.weekday is Some) == (name == "weekly"@ || name == "biweekly"@ || name
                == "fortnightly"@)
            &&& c.weekday matches Some(day) ==> day == 0
            &&& (c.day is Some) == (name == "monthly"@)
            &&& c.day matches Some(day) ==> day == 1
            &&& c.biweekly == (name == "biweekly"@ || name == "fortnightly"@)
        },
{
    reveal_strlit("daily");
    reveal_strlit("weekly");
    reveal_strlit("biweekly");
    reveal_strlit("fortnightly");
    reveal_strlit("monthly");
    assert("daily"@.len() == 5 && "weekly"@.len() == 6 && "biweekly"@.len() == 8);
    assert("fortnightly"@.len() == 11 && "monthly"@.len() == 7);
}

/// A timer goes off at the hour of its cadence: on a day of the month, on Sundays, or every day.
pub proof fn a_timer_goes_off_on_its_day(cadence: Cadence)
    ensures
        ({
            let at = zero_padded(cadence.hour as nat, 2) + ":"@ + zero_padded(
                cadence.minute as nat,
                2,
            );
            &&& cadence.day matches Some(day) ==> cadence.calendar() == "*-*-"@ + zero_padded(
                day as nat,
                2,
            ) + " "@ + at + ":00"@ && cadence.words() == "monthly on day "@ + decimal(day as nat)
                + " at "@ + at
            &&& cadence.day is None && cadence.weekday is Some ==> cadence.calendar() == "Sun "@ + at
                + ":00"@
            &&& cadence.day is None && cadence.weekday is Some ==> cadence.words() == (
            if cadence.biweekly {
                "every other Sunday at "@
            } else {
                "every Sunday at "@
            }) + at
            &&& cadence.day is None && cadence.weekday is None ==> cadence.calendar() == "*-*-* "@
                + at + ":00"@ && cadence.words() == "daily at "@ + at
            &&& has_part(timer_of(cadence), cadence.calendar())
        }),
{
    broadcast use group_parts_of_texts;
}

/// What is installed runs the whole command: each of its arguments stands in the agent, escaped,
/// and all of them in the service, which ends after the longest time allowed.
pub proof fn a_unit_runs_the_whole_command(
    command: Seq<Seq<char>>,
    cadence: Cadence,
    log_dir: Seq<char>,
    minutes: u32,
    i: int,
)
    requires
        0 <= i < command.len(),
    ensures
        has_part(
            plist_of(command, cadence, log_dir),
            "        <string>"@ + xml_escaped(command[i]) + "</string>"@,
        ),
        has_part(service_of(command, minutes), joined(command, " "@)),
        has_part(service_of(command, minutes), decimal(minutes as nat)),
        has_part(plist_of(command, cadence, log_dir), plist_calendar(cadence)),
        has_part(plist_of(command, cadence, log_dir), log_dir),
        has_part(plist_calendar(cadence), decimal(cadence.hour as nat)),
        cadence.weekday matches Some(day) ==> has_part(
            plist_calendar(cadence),
            "\n        <key>Weekday</key><integer>"@ + decimal(day as nat) + "</integer>"@,
        ),
        cadence.day matches Some(day) ==> has_part(
            plist_calendar(cadence),
            "\n        <key>Day</key><integer>"@ + decimal(day as nat) + "</integer>"@,
        ),
{
    broadcast use group_parts_of_texts;
    let arguments = plist_arguments(command);
    lemma_part_of_joined(arguments, "\n"@, i);
    assert(arguments[i] == "        <string>"@ + xml_escaped(command[i]) + "</string>"@);
    assert(has_part(joined(arguments, "\n"@), arguments[i]));
    let calendar = plist_calendar(cadence);
    assert(has_part(calendar, calendar));
}

/// A Mac has one agent, Linux a service and its timer, and other systems nothing.
pub proof fn each_system_has_its_units(
    paths: PathsModel,
    command: Seq<Seq<char>>,
    cadence: Cadence,
    minutes: u32,
)
    ensures
        ({
            let files = files_of(paths, command, cadence, minutes);
            &&& paths.os == Os::MacOs ==> files.len() == 1 && files[0] == (
                join(paths.home, "Library/LaunchAgents/dev.reclaim.cleanup.plist"@),
                plist_of(command, cadence, join(paths.state_dir, "reclaim"@)),
            ) && unit_of(paths) == Some(files[0].0)
            &&& paths.os == Os::Linux ==> files.len() == 2 && files[0] == (
                join(paths.config_dir, "systemd/user/reclaim.service"@),
                service_of(command, minutes),
            ) && files[1] == (
                join(paths.config_dir, "systemd/user/reclaim.timer"@),
                timer_of(cadence),
            ) && unit_of(paths) == Some(files[1].0)
            &&& paths.os == Os::Other ==> files.len() == 0 && unit_of(paths) is None
        }),
{
}

/// The status says when it runs next, what came of the last run, and how much of that failed.
pub proof fn the_status_tells_the_last_run(
    unit_path: Seq<char>,
    cadence: Cadence,
    runs: Seq<RunModel>,
    enabled: bool,
)
    ensures
        ({
            let text = status_text(unit_path, Some(cadence), runs, enabled);
            &&& has_part(text, unit_path)
            &&& has_part(text, cadence.words())
            &&& last_scheduled(runs) matches Some(run) ==> has_part(text, run.line())
            &&& last_scheduled(runs) matches Some(run) ==> failed_items(run.items).len() > 0
                ==> has_part(text, decimal(failed_items(run.items).len()) + " item(s) failed"@)
            &&& last_scheduled(runs) is None ==> has_part(text, "has not run yet"@)
            &&& has_part(
                status_text(unit_path, None, runs, enabled),
                "No scheduled cleanup is installed.\n"@,
            )
        }),
{
    broadcast use group_parts_of_texts;
    styling_keeps_the_text(enabled, "2"@, "has not run yet"@);
    let last = last_scheduled(runs);
    let text = last_run_text(last, enabled);
    if last is Some {
        let run = last->0;
        assert(has_part(text, run.line()));
        if failed_items(run.items).len() > 0 {
            let failed = decimal(failed_items(run.items).len()) + " item(s) failed"@;
            styling_keeps_the_text(enabled, "31"@, failed);
            assert(has_part(text, failed));
        }
    } else {
        assert(has_part(text, "has not run yet"@));
    }
}

/// What was installed is told in full: when, where, for which tiers, from which age, and that the
/// first run removes nothing where that is so.
pub proof fn an_installation_is_told_in_full(p: SchedulePlan, unit_path: Seq<char>, enabled: bool)
    ensures
        ({
            let text = installed_text(p, unit_path, enabled);
            &&& has_part(text, p.cadence.words())
            &&& has_part(text, unit_path)
            &&& has_part(text, joined(tier_names(p.tiers@), ", "@))
            &&& has_part(text, decimal(p.older_than as nat))
            &&& p.dry_run ==> has_part(
                text,
                "The first run only reports what it would do. Check `reclaim history`, then set schedule.dry_run_first = false in your config to arm it."@,
            )
            &&& p.cadence.biweekly ==> has_part(
                text,
                "Biweekly is implemented as a weekly trigger that skips odd weeks, since neither launchd nor systemd expresses fortnightly directly."@,
            )
        }),
{
    broadcast use group_parts_of_texts;
    styling_keeps_the_text(
        enabled,
        "33"@,
        "The first run only reports what it would do. Check `reclaim history`, then set schedule.dry_run_first = false in your config to arm it."@,
    );
    styling_keeps_the_text(
        enabled,
        "2"@,
        "Biweekly is implemented as a weekly trigger that skips odd weeks, since neither launchd nor systemd expresses fortnightly directly."@,
    );
}

} // verus!

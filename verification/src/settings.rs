//! The settings of the program and how it starts with the system.
use crate::repository::{LocalRepository, RepositoryView};
use crate::text::{
    a_written_number_reads_back, chars_of, contains_part, has_part, parse_i32, same_text,
    signed_decimal, signed_number, trim, trimmed,
};
use vstd::prelude::*;

verus! {

/// Where the server is, unless the environment says otherwise.
pub const DEFAULT_API_BASE_URL: &'static str = "https://novel.emssion.com/schedule";

/// Where the server is.
pub fn api_base_url(from_environment: Option<String>) -> (r: String)
    ensures
        r@ == match from_environment {
            Some(url) => url@,
            None => DEFAULT_API_BASE_URL@,
        },
{
    match from_environment {
        Some(url) => url,
        None => DEFAULT_API_BASE_URL.to_owned(),
    }
}

/// The value of a setting.
pub open spec fn setting_in(repository: RepositoryView, key: Seq<char>) -> Option<Seq<char>> {
    if repository.settings.contains_key(key) {
        Some(repository.settings[key])
    } else {
        None
    }
}

/// What a setting says of a switch: `true` or `false`, else the default.
pub open spec fn switch(value: Option<Seq<char>>, default: bool) -> bool {
    match value {
        Some(text) => if text == "true"@ {
            true
        } else if text == "false"@ {
            false
        } else {
            default
        },
        None => default,
    }
}

/// What the setting `key` says of a switch.
pub fn bool_setting(repository: &LocalRepository, key: &str, default: bool) -> (r: bool)
    requires
        repository.wf(),
    ensures
        r == switch(setting_in(repository@, key@), default),
{
    proof {
        reveal_strlit("true");
        reveal_strlit("false");
        assert("true"@.len() != "false"@.len());
    }
    match repository.setting(key) {
        Some(text) => if same_text(text.as_str(), "true") {
            true
        } else if same_text(text.as_str(), "false") {
            false
        } else {
            default
        },
        None => default,
    }
}

/// A switch as the value of a setting.
pub open spec fn switch_text(value: bool) -> Seq<char> {
    if value {
        "true"@
    } else {
        "false"@
    }
}

/// A switch as the value of a setting.
pub fn switch_label(value: bool) -> (r: &'static str)
    ensures
        r@ == switch_text(value),
{
    if value {
        "true"
    } else {
        "false"
    }
}

/// A switch reads back as it was set.
pub proof fn a_switch_reads_back(value: bool, default: bool)
    ensures
        switch(Some(switch_text(value)), default) == value,
{
    reveal_strlit("true");
    reveal_strlit("false");
    assert("true"@.len() != "false"@.len());
}

/// What closing the window does: 0 to 3, or -1 while the user has not chosen.
pub open spec fn close_behavior_of(value: Option<Seq<char>>) -> int {
    match value {
        Some(text) => match signed_number(text, i32::MIN as int, i32::MAX as int) {
            Some(n) => if 0 <= n <= 3 {
                n
            } else {
                -1
            },
            None => -1,
        },
        None => -1,
    }
}

/// What closing the window does.
pub fn close_behavior(repository: &LocalRepository) -> (r: i32)
    requires
        repository.wf(),
    ensures
        r == close_behavior_of(setting_in(repository@, "close_behavior"@)),
        -1 <= r <= 3,
{
    match repository.setting("close_behavior") {
        Some(text) => match parse_i32(text.as_str()) {
            Some(n) => if 0 <= n && n <= 3 {
                n
            } else {
                -1
            },
            None => -1,
        },
        None => -1,
    }
}

/// The system that the program runs on.
#[derive(Clone, Copy, Debug, PartialEq, Eq, Structural)]
pub enum Platform {
    Windows,
    MacOs,
    Other,
}

/// What users read of the start with the system.
pub open spec fn autostart_text(
    platform: Platform,
    enabled: bool,
    error: Option<Seq<char>>,
) -> Seq<char> {
    match error {
        Some(e) => "启动项检测失败："@ + e,
        None => if !enabled {
            "未启用"@
        } else {
            match platform {
                Platform::Windows => "已启用：Windows 登录计划任务已检测并同步"@,
                Platform::MacOs => "已启用：macOS 用户启动项已检测并同步"@,
                Platform::Other => "当前系统不支持开机启动"@,
            }
        },
    }
}

/// What users read of the start with the system.
pub fn autostart_status(platform: Platform, enabled: bool, error: Option<&str>) -> (r: String)
    ensures
        r@ == autostart_text(
            platform,
            enabled,
            match error {
                Some(e) => Some(e@),
                None => None,
            },
        ),
{
    match error {
        Some(e) => {
            let mut r = "启动项检测失败：".to_owned();
            r.append(e);
            r
        },
        None => if !enabled {
            "未启用".to_owned()
        } else {
            match platform {
                Platform::Windows => "已启用：Windows 登录计划任务已检测并同步".to_owned(),
                Platform::MacOs => "已启用：macOS 用户启动项已检测并同步".to_owned(),
                Platform::Other => "当前系统不支持开机启动".to_owned(),
            }
        },
    }
}

/// The name of the task that starts the program on Windows.
pub const AUTOSTART_TASK_NAME: &'static str = "Schedule Manager";

/// The next step of turning the start with the system on or off.
#[derive(Debug)]
pub enum AutostartStep {
    /// Ask about the login item: before a deletion whether there is one, after a creation whether
    /// it is in place.
    Query,
    /// Delete the login item.
    Delete,
    /// Make the login item, in place of any other.
    Create,
    /// Nothing is left to do.
    Done,
    /// It failed, with this reason.
    Failed(&'static str),
}

/// A step, with the reason of a failure as text.
pub enum StepView {
    Query,
    Delete,
    Create,
    Done,
    Failed(Seq<char>),
}

impl View for AutostartStep {
    type V = StepView;

    open spec fn view(&self) -> StepView {
        match self {
            AutostartStep::Query => StepView::Query,
            AutostartStep::Delete => StepView::Delete,
            AutostartStep::Create => StepView::Create,
            AutostartStep::Done => StepView::Done,
            AutostartStep::Failed(reason) => StepView::Failed(reason@),
        }
    }
}

/// What was done last.
#[derive(Clone, Copy, Debug, PartialEq, Eq, Structural)]
pub enum AutostartEvent {
    Begun,
    /// The query before a deletion said whether there is a login item.
    Queried(bool),
    Deleted,
    Created,
    /// The query after the creation said whether the login item is in place.
    Confirmed(bool),
}

/// What turning the start with the system on or off takes next.
pub open spec fn step_after(
    platform: Platform,
    enabled: bool,
    event: AutostartEvent,
) -> StepView {
    match (platform, enabled, event) {
        (Platform::Other, true, _) => StepView::Failed("当前系统不支持开机启动"@),
        (Platform::Other, false, _) => StepView::Done,
        (_, false, AutostartEvent::Begun) => StepView::Query,
        (_, false, AutostartEvent::Queried(true)) => StepView::Delete,
        (_, true, AutostartEvent::Begun) => StepView::Create,
        (_, true, AutostartEvent::Created) => StepView::Query,
        (Platform::Windows, true, AutostartEvent::Confirmed(false)) => StepView::Failed(
            "计划任务创建后未能通过检测"@,
        ),
        (Platform::MacOs, true, AutostartEvent::Confirmed(false)) => StepView::Failed(
            "macOS 用户启动项写入后未能通过检测"@,
        ),
        _ => StepView::Done,
    }
}

/// What turning the start with the system on or off takes next.
pub fn autostart_step(platform: Platform, enabled: bool, event: AutostartEvent) -> (r:
    AutostartStep)
    ensures
        r@ == step_after(platform, enabled, event),
{
    match (platform, enabled, event) {
        (Platform::Other, true, _) => AutostartStep::Failed("当前系统不支持开机启动"),
        (Platform::Other, false, _) => AutostartStep::Done,
        (_, false, AutostartEvent::Begun) => AutostartStep::Query,
        (_, false, AutostartEvent::Queried(true)) => AutostartStep::Delete,
        (_, true, AutostartEvent::Begun) => AutostartStep::Create,
        (_, true, AutostartEvent::Created) => AutostartStep::Query,
        (Platform::Windows, true, AutostartEvent::Confirmed(false)) => AutostartStep::Failed(
            "计划任务创建后未能通过检测",
        ),
        (Platform::MacOs, true, AutostartEvent::Confirmed(false)) => AutostartStep::Failed(
            "macOS 用户启动项写入后未能通过检测",
        ),
        _ => AutostartStep::Done,
    }
}

/// What the task on Windows runs.
pub open spec fn action_text(executable: Seq<char>) -> Seq<char> {
    "\""@ + executable + "\" --startup-hidden"@
}

/// What the task on Windows runs.
pub fn autostart_action(executable: &str) -> (r: String)
    ensures
        r@ == action_text(executable@),
{
    let mut r = "\"".to_owned();
    r.append(executable);
    r.append("\" --startup-hidden");
    r
}

/// The error of a command that failed.
pub fn command_failure(action: &str, detail: &str) -> (r: String)
    ensures
        r@ == action@ + "失败："@ + trimmed(detail@),
{
    let mut r = action.to_owned();
    r.append("失败：");
    r.append(trim(detail).as_str());
    r
}

/// A character as XML text has it.
pub open spec fn escaped_char(c: char) -> Seq<char> {
    if c == '&' {
        "&amp;"@
    } else if c == '<' {
        "&lt;"@
    } else if c == '>' {
        "&gt;"@
    } else if c == '"' {
        "&quot;"@
    } else if c == '\'' {
        "&apos;"@
    } else {
        seq![c]
    }
}

/// A text as XML has it.
pub open spec fn escaped(s: Seq<char>) -> Seq<char>
    decreases s.len(),
{
    if s.len() == 0 {
        Seq::empty()
    } else {
        escaped(s.drop_last()) + escaped_char(s.last())
    }
}

/// A text as XML has it.
pub fn xml_escape(value: &str) -> (r: String)
    ensures
        r@ == escaped(value@),
{
    let chars = chars_of(value);
    let mut r = String::new();
    let mut i: usize = 0;
    assert(chars@.take(0) =~= Seq::<char>::empty());
    while i < chars.len()
        invariant
            i <= chars@.len(),
            r@ == escaped(chars@.take(i as int)),
        decreases chars@.len() - i,
    {
        let c: char = chars[i];
        proof {
            let next = chars@.take(i + 1);
            assert(next.drop_last() =~= chars@.take(i as int));
            assert(next.last() == c);
        }
        if c == '&' {
            r.append("&amp;");
        } else if c == '<' {
            r.append("&lt;");
        } else if c == '>' {
            r.append("&gt;");
        } else if c == '"' {
            r.append("&quot;");
        } else if c == '\'' {
            r.append("&apos;");
        } else {
            let ghost before = r@;
            r.push(c);
            assert(r@ =~= before + seq![c]);
        }
        i = i + 1;
    }
    assert(chars@.take(chars@.len() as int) =~= chars@);
    r
}

/// An escaped text holds no character that XML gives a meaning, but for the ampersands that begin
/// its escapes.
pub proof fn escaped_text_is_plain(s: Seq<char>, i: int)
    requires
        0 <= i < escaped(s).len(),
    ensures
        escaped(s)[i] != '<',
        escaped(s)[i] != '>',
        escaped(s)[i] != '"',
        escaped(s)[i] != '\'',
    decreases s.len(),
{
    reveal_strlit("&amp;");
    reveal_strlit("&lt;");
    reveal_strlit("&gt;");
    reveal_strlit("&quot;");
    reveal_strlit("&apos;");
    if s.len() > 0 {
        let before = escaped(s.drop_last());
        if i < before.len() {
            escaped_text_is_plain(s.drop_last(), i);
        } else {
            assert(escaped(s)[i] == escaped_char(s.last())[i - before.len()]);
        }
    }
}

/// The start item of macOS for an executable.
pub open spec fn launch_agent_text(executable: Seq<char>) -> Seq<char> {
    "<?xml version=\"1.0\" encoding=\"UTF-8\"?>\n<!DOCTYPE plist PUBLIC \"-//Apple//DTD PLIST 1.0//EN\" \"http://www.apple.com/DTDs/PropertyList-1.0.dtd\">\n<plist version=\"1.0\">\n<dict>\n  <key>Label</key><string>com.emssion.schedule-manager</string>\n  <key>ProgramArguments</key>\n  <array><string>"@
        + escaped(executable)
        + "</string><string>--startup-hidden</string></array>\n  <key>RunAtLoad</key><true/>\n  <key>KeepAlive</key><false/>\n</dict>\n</plist>\n"@
}

/// The start item of macOS for `executable`.
pub fn launch_agent(executable: &str) -> (r: String)
    ensures
        r@ == launch_agent_text(executable@),
{
    let mut r =
        "<?xml version=\"1.0\" encoding=\"UTF-8\"?>\n<!DOCTYPE plist PUBLIC \"-//Apple//DTD PLIST 1.0//EN\" \"http://www.apple.com/DTDs/PropertyList-1.0.dtd\">\n<plist version=\"1.0\">\n<dict>\n  <key>Label</key><string>com.emssion.schedule-manager</string>\n  <key>ProgramArguments</key>\n  <array><string>".to_owned();
    r.append(xml_escape(executable).as_str());
    r.append(
        "</string><string>--startup-hidden</string></array>\n  <key>RunAtLoad</key><true/>\n  <key>KeepAlive</key><false/>\n</dict>\n</plist>\n",
    );
    r
}

/// Whether an installed start item of macOS starts an executable hidden.
pub open spec fn starts_hidden(installed: Seq<char>, executable: Seq<char>) -> bool {
    has_part(installed, "--startup-hidden"@) && has_part(installed, escaped(executable))
}

/// Whether an installed start item of macOS starts `executable` hidden.
pub fn launch_agent_installed(installed: &str, executable: &str) -> (r: bool)
    ensures
        r == starts_hidden(installed@, executable@),
{
    contains_part(installed, "--startup-hidden") && contains_part(
        installed,
        xml_escape(executable).as_str(),
    )
}

/// The login item that starts an executable: what the task runs on Windows, the start item on
/// macOS.
pub open spec fn login_item(platform: Platform, executable: Seq<char>) -> Seq<char> {
    match platform {
        Platform::MacOs => launch_agent_text(executable),
        _ => action_text(executable),
    }
}

/// Whether a login item is in place after a creation: on Windows there is one, on macOS it starts
/// the executable hidden.
pub open spec fn in_place(
    platform: Platform,
    executable: Seq<char>,
    item: Option<Seq<char>>,
) -> bool {
    match (platform, item) {
        (_, None) => false,
        (Platform::MacOs, Some(installed)) => starts_hidden(installed, executable),
        (_, Some(_)) => true,
    }
}

/// What a step does on a system that does as it is told: what is said of it, and the login item
/// that is left.
pub open spec fn carried_out(
    platform: Platform,
    executable: Seq<char>,
    before: AutostartEvent,
    step: StepView,
    item: Option<Seq<char>>,
) -> (AutostartEvent, Option<Seq<char>>) {
    match step {
        StepView::Create => (
            AutostartEvent::Created,
            Some(login_item(platform, executable)),
        ),
        StepView::Delete => (AutostartEvent::Deleted, None),
        StepView::Query => if before is Created {
            (AutostartEvent::Confirmed(in_place(platform, executable, item)), item)
        } else {
            (AutostartEvent::Queried(item is Some), item)
        },
        _ => (before, item),
    }
}

/// Where at most `steps` steps after `event` lead: the step that comes then, and the login item
/// that is left.
pub open spec fn autostart_run(
    platform: Platform,
    enabled: bool,
    executable: Seq<char>,
    event: AutostartEvent,
    item: Option<Seq<char>>,
    steps: nat,
) -> (StepView, Option<Seq<char>>)
    decreases steps,
{
    let step = step_after(platform, enabled, event);
    if steps == 0 || step is Done || step is Failed {
        (step, item)
    } else {
        let (next, left) = carried_out(platform, executable, event, step, item);
        autostart_run(platform, enabled, executable, next, left, (steps - 1) as nat)
    }
}

/// The start item of macOS passes its own test.
proof fn lemma_agent_starts_hidden(executable: Seq<char>)
    ensures
        starts_hidden(launch_agent_text(executable), executable),
{
    let front =
        "<?xml version=\"1.0\" encoding=\"UTF-8\"?>\n<!DOCTYPE plist PUBLIC \"-//Apple//DTD PLIST 1.0//EN\" \"http://www.apple.com/DTDs/PropertyList-1.0.dtd\">\n<plist version=\"1.0\">\n<dict>\n  <key>Label</key><string>com.emssion.schedule-manager</string>\n  <key>ProgramArguments</key>\n  <array><string>"@;
    let back =
        "</string><string>--startup-hidden</string></array>\n  <key>RunAtLoad</key><true/>\n  <key>KeepAlive</key><false/>\n</dict>\n</plist>\n"@;
    let name = escaped(executable);
    let whole = launch_agent_text(executable);
    assert(whole =~= front + name + back);
    let first = front.len() as int;
    assert(whole.subrange(first, first + name.len()) =~= name);
    reveal_strlit("--startup-hidden");
    reveal_strlit(
        "</string><string>--startup-hidden</string></array>\n  <key>RunAtLoad</key><true/>\n  <key>KeepAlive</key><false/>\n</dict>\n</plist>\n",
    );
    let at = first + name.len() + 17;
    let switch = "--startup-hidden"@;
    assert(back.subrange(17, 33) =~= switch);
    assert(whole.subrange(at, at + switch.len()) =~= back.subrange(17, 33));
}

/// Turning the start with the system on leaves the one login item that starts the executable, in
/// place of any other; turning it off leaves none. Doing the same again changes nothing. A system
/// without login items refuses the one and has nothing to do for the other.
pub proof fn the_login_item_follows_the_switch(
    platform: Platform,
    enabled: bool,
    executable: Seq<char>,
    item: Option<Seq<char>>,
)
    ensures
        ({
            let (end, left) = autostart_run(
                platform,
                enabled,
                executable,
                AutostartEvent::Begun,
                item,
                4,
            );
            if platform is Other {
                &&& end == (if enabled {
                    StepView::Failed("当前系统不支持开机启动"@)
                } else {
                    StepView::Done
                })
                &&& left == item
            } else {
                &&& end is Done
                &&& left == (if enabled {
                    Some(login_item(platform, executable))
                } else {
                    None
                })
                &&& autostart_run(platform, enabled, executable, AutostartEvent::Begun, left, 4)
                    == (end, left)
            }
        }),
{
    reveal_with_fuel(autostart_run, 5);
    lemma_agent_starts_hidden(executable);
}

/// A switch is what its setting says, where that is `true` or `false`; all else leaves the default.
pub proof fn an_unread_switch_has_its_default(text: Seq<char>, default: bool)
    ensures
        switch(None, default) == default,
        switch(Some(seq!['t', 'r', 'u', 'e']), default),
        !switch(Some(seq!['f', 'a', 'l', 's', 'e']), default),
        text != seq!['t', 'r', 'u', 'e'] && text != seq!['f', 'a', 'l', 's', 'e'] ==> switch(
            Some(text),
            default,
        ) == default,
{
    reveal_strlit("true");
    reveal_strlit("false");
    assert("true"@ =~= seq!['t', 'r', 'u', 'e']);
    assert("false"@ =~= seq!['f', 'a', 'l', 's', 'e']);
    assert("true"@.len() != "false"@.len());
}

/// A close behavior that was written is read as it was, if it is one of the four; all else counts as
/// not chosen.
pub proof fn a_close_behavior_reads_back(n: int, text: Seq<char>)
    ensures
        0 <= n <= 3 ==> close_behavior_of(Some(signed_decimal(n))) == n,
        i32::MIN <= n <= i32::MAX && !(0 <= n <= 3) ==> close_behavior_of(Some(signed_decimal(n)))
            == -1,
        close_behavior_of(None) == -1,
        -1 <= close_behavior_of(Some(text)) <= 3,
{
    if i32::MIN <= n <= i32::MAX {
        a_written_number_reads_back(n, i32::MIN as int, i32::MAX as int);
    }
}

/// A text is escaped character by character: what XML gives a meaning becomes its escape, and all
/// else stays.
pub proof fn escaping_goes_character_by_character(s: Seq<char>, c: char)
    ensures
        escaped(s.push(c)) == escaped(s) + escaped_char(c),
        escaped(Seq::<char>::empty()).len() == 0,
        escaped_char('&') == seq!['&', 'a', 'm', 'p', ';'],
        escaped_char('<') == seq!['&', 'l', 't', ';'],
        escaped_char('>') == seq!['&', 'g', 't', ';'],
        escaped_char('"') == seq!['&', 'q', 'u', 'o', 't', ';'],
        escaped_char('\'') == seq!['&', 'a', 'p', 'o', 's', ';'],
        c != '&' && c != '<' && c != '>' && c != '"' && c != '\'' ==> escaped_char(c) == seq![c],
{
    reveal_strlit("&amp;");
    reveal_strlit("&lt;");
    reveal_strlit("&gt;");
    reveal_strlit("&quot;");
    reveal_strlit("&apos;");
    assert("&amp;"@ =~= seq!['&', 'a', 'm', 'p', ';']);
    assert("&lt;"@ =~= seq!['&', 'l', 't', ';']);
    assert("&gt;"@ =~= seq!['&', 'g', 't', ';']);
    assert("&quot;"@ =~= seq!['&', 'q', 'u', 'o', 't', ';']);
    assert("&apos;"@ =~= seq!['&', 'a', 'p', 'o', 's', ';']);
    assert(s.push(c).drop_last() =~= s);
}

/// A failure to look at the start with the system is told with its reason; without one users read
/// whether it is on, and only a system without login items says that it has none.
pub proof fn the_autostart_status_tells_failures_first(
    platform: Platform,
    enabled: bool,
    reason: Seq<char>,
)
    ensures
        autostart_text(platform, enabled, Some(reason)) == "启动项检测失败："@ + reason,
        autostart_text(platform, false, None) == "未启用"@,
        platform is Other ==> autostart_text(platform, true, None) == "当前系统不支持开机启动"@,
        !(platform is Other) ==> autostart_text(platform, true, None).take(3) == seq![
            '已',
            '启',
            '用',
        ],
{
    reveal_strlit("已启用：Windows 登录计划任务已检测并同步");
    reveal_strlit("已启用：macOS 用户启动项已检测并同步");
    if platform is Windows {
        assert("已启用：Windows 登录计划任务已检测并同步"@.take(3) =~= seq!['已', '启', '用']);
    }
    if platform is MacOs {
        assert("已启用：macOS 用户启动项已检测并同步"@.take(3) =~= seq!['已', '启', '用']);
    }
}

/// What starts with the system is the executable itself, quoted or escaped, and hidden.
pub proof fn the_login_item_starts_the_executable_hidden(executable: Seq<char>)
    ensures
        action_text(executable) == seq!['"'] + executable + "\" --startup-hidden"@,
        has_part(launch_agent_text(executable), escaped(executable)),
        has_part(launch_agent_text(executable), "--startup-hidden"@),
{
    reveal_strlit("\"");
    assert("\""@ =~= seq!['"']);
    lemma_agent_starts_hidden(executable);
}

} // verus!

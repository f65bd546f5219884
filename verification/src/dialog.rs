//! The decisions of the interactive session: the naming format dialog, the
//! format given on the command line, the folder typed in, and the answer to
//! the confirmation question. Reading and printing stay with the caller.

use vstd::prelude::*;
use crate::foreign::{is_compact_date, lowercase_of, to_lowercase, today_compact_date};
use crate::naming::{FormatConfig, FormatModel};
use crate::text::{contains, contains_text, parse_usize, parsed_usize, text_eq, trim, trimmed};

verus! {

/// Where the format dialog stands: which answer it waits for.
pub enum Stage {
    /// The menu choice (1 to 5).
    Choice,
    /// The prefix of the prefix-and-number format.
    Prefix,
    /// The date of the date-and-number format; holds today's date, the default.
    Date(String),
    /// The kept name of the name-and-number format.
    Name,
    /// The custom pattern.
    Custom,
    /// The value for `{P}` in a custom pattern.
    CustomPrefix,
    /// The number width.
    Digits,
    /// Nothing more: the format is complete.
    Finished,
}

/// What the dialog reports after an answer, before its next question.
pub enum Notice {
    NumberOnlyChosen,
    InvalidChoice,
    PrefixChosen(String),
    DateChosen(String),
    NameChosen(String),
    EmptyCustom,
    CustomChosen(String),
    DigitsOutOfRange,
    DigitsInvalid,
    DigitsChosen(usize),
}

/// The next question of the dialog, or `Done` when the format is complete.
pub enum Prompt {
    Prefix,
    Date(String),
    Name,
    Custom,
    CustomPrefix,
    Digits,
    Done,
}

/// The dialog's answer to one line of input.
pub struct DialogReply {
    pub notices: Vec<Notice>,
    pub prompt: Prompt,
}

/// The format dialog: its stage and the format built so far.
pub struct FormatDialog {
    pub stage: Stage,
    pub config: FormatConfig,
}

/// The mathematical value of a `Stage`.
pub enum StageModel {
    Choice,
    Prefix,
    Date(Seq<char>),
    Name,
    Custom,
    CustomPrefix,
    Digits,
    Finished,
}

/// The mathematical value of a `Notice`.
pub enum NoticeModel {
    NumberOnlyChosen,
    InvalidChoice,
    PrefixChosen(Seq<char>),
    DateChosen(Seq<char>),
    NameChosen(Seq<char>),
    EmptyCustom,
    CustomChosen(Seq<char>),
    DigitsOutOfRange,
    DigitsInvalid,
    DigitsChosen(usize),
}

/// The mathematical value of a `Prompt`.
pub enum PromptModel {
    Prefix,
    Date(Seq<char>),
    Name,
    Custom,
    CustomPrefix,
    Digits,
    Done,
}

/// The mathematical value of a `DialogReply`.
pub struct ReplyModel {
    pub notices: Seq<NoticeModel>,
    pub prompt: PromptModel,
}

/// The mathematical value of a `FormatDialog`.
pub struct DialogModel {
    pub stage: StageModel,
    pub config: FormatModel,
}

impl View for Stage {
    type V = StageModel;

    open spec fn view(&self) -> StageModel {
        match self {
            Stage::Choice => StageModel::Choice,
            Stage::Prefix => StageModel::Prefix,
            Stage::Date(d) => StageModel::Date(d@),
            Stage::Name => StageModel::Name,
            Stage::Custom => StageModel::Custom,
            Stage::CustomPrefix => StageModel::CustomPrefix,
            Stage::Digits => StageModel::Digits,
            Stage::Finished => StageModel::Finished,
        }
    }
}

impl View for Notice {
    type V = NoticeModel;

    open spec fn view(&self) -> NoticeModel {
        match self {
            Notice::NumberOnlyChosen => NoticeModel::NumberOnlyChosen,
            Notice::InvalidChoice => NoticeModel::InvalidChoice,
            Notice::PrefixChosen(s) => NoticeModel::PrefixChosen(s@),
            Notice::DateChosen(s) => NoticeModel::DateChosen(s@),
            Notice::NameChosen(s) => NoticeModel::NameChosen(s@),
            Notice::EmptyCustom => NoticeModel::EmptyCustom,
            Notice::CustomChosen(s) => NoticeModel::CustomChosen(s@),
            Notice::DigitsOutOfRange => NoticeModel::DigitsOutOfRange,
            Notice::DigitsInvalid => NoticeModel::DigitsInvalid,
            Notice::DigitsChosen(d) => NoticeModel::DigitsChosen(*d),
        }
    }
}

impl View for Prompt {
    type V = PromptModel;

    open spec fn view(&self) -> PromptModel {
        match self {
            Prompt::Prefix => PromptModel::Prefix,
            Prompt::Date(s) => PromptModel::Date(s@),
            Prompt::Name => PromptModel::Name,
            Prompt::Custom => PromptModel::Custom,
            Prompt::CustomPrefix => PromptModel::CustomPrefix,
            Prompt::Digits => PromptModel::Digits,
            Prompt::Done => PromptModel::Done,
        }
    }
}

impl View for DialogReply {
    type V = ReplyModel;

    open spec fn view(&self) -> ReplyModel {
        ReplyModel { notices: self.notices@.map_values(|n: Notice| n@), prompt: self.prompt@ }
    }
}

impl View for FormatDialog {
    type V = DialogModel;

    open spec fn view(&self) -> DialogModel {
        DialogModel { stage: self.stage@, config: self.config@ }
    }
}

/// The dialog at `stage` with format `config`.
pub open spec fn dialog_at(stage: StageModel, config: FormatModel) -> DialogModel {
    DialogModel { stage, config }
}

/// A reply with these notices and this question.
pub open spec fn reply_of(notices: Seq<NoticeModel>, prompt: PromptModel) -> ReplyModel {
    ReplyModel { notices, prompt }
}

/// `config` with another pattern.
pub open spec fn with_pattern(config: FormatModel, pattern: Seq<char>) -> FormatModel {
    FormatModel { pattern, ..config }
}

/// `config` with another pattern and prefix.
pub open spec fn with_pattern_prefix(
    config: FormatModel,
    pattern: Seq<char>,
    prefix: Seq<char>,
) -> FormatModel {
    FormatModel { pattern, prefix, ..config }
}

/// The answer to the menu: empty means 1; 1 the number only, 2 to 5 ask
/// further, anything else is reported and gives the number only.
pub open spec fn after_choice(
    config: FormatModel,
    answer: Seq<char>,
    today: Seq<char>,
) -> (DialogModel, ReplyModel) {
    let choice = if answer.len() == 0 { "1"@ } else { answer };
    if choice == "1"@ {
        (
            dialog_at(StageModel::Digits, with_pattern(config, "NumberOnly"@)),
            reply_of(seq![NoticeModel::NumberOnlyChosen], PromptModel::Digits),
        )
    } else if choice == "2"@ {
        (dialog_at(StageModel::Prefix, config), reply_of(seq![], PromptModel::Prefix))
    } else if choice == "3"@ {
        (dialog_at(StageModel::Date(today), config), reply_of(seq![], PromptModel::Date(today)))
    } else if choice == "4"@ {
        (dialog_at(StageModel::Name, config), reply_of(seq![], PromptModel::Name))
    } else if choice == "5"@ {
        (dialog_at(StageModel::Custom, config), reply_of(seq![], PromptModel::Custom))
    } else {
        (
            dialog_at(StageModel::Digits, with_pattern(config, "NumberOnly"@)),
            reply_of(seq![NoticeModel::InvalidChoice], PromptModel::Digits),
        )
    }
}

/// The answer, or `default` when it is empty.
pub open spec fn or_default(answer: Seq<char>, default: Seq<char>) -> Seq<char> {
    if answer.len() == 0 {
        default
    } else {
        answer
    }
}

/// The answer to the custom pattern question.
pub open spec fn after_custom(config: FormatModel, answer: Seq<char>) -> (DialogModel, ReplyModel) {
    if answer.len() == 0 {
        (
            dialog_at(StageModel::Digits, with_pattern(config, "NumberOnly"@)),
            reply_of(seq![NoticeModel::EmptyCustom], PromptModel::Digits),
        )
    } else {
        let custom = FormatModel { pattern: answer, custom_format: true, ..config };
        if contains_text(answer, "{P}"@) {
            (dialog_at(StageModel::CustomPrefix, custom), reply_of(seq![], PromptModel::CustomPrefix))
        } else {
            (
                dialog_at(StageModel::Digits, custom),
                reply_of(seq![NoticeModel::CustomChosen(answer)], PromptModel::Digits),
            )
        }
    }
}

/// The answer to the width question: a number from 2 to 6 is taken; any other
/// number, or a non-empty answer that is no number, is reported and the width
/// stays; the width in effect is reported last.
pub open spec fn after_digits(config: FormatModel, answer: Seq<char>) -> (DialogModel, ReplyModel) {
    match parsed_usize(answer) {
        Some(d) => if 2 <= d <= 6 {
            (
                dialog_at(StageModel::Finished, FormatModel { digits: d, ..config }),
                reply_of(seq![NoticeModel::DigitsChosen(d)], PromptModel::Done),
            )
        } else {
            (
                dialog_at(StageModel::Finished, config),
                reply_of(
                    seq![NoticeModel::DigitsOutOfRange, NoticeModel::DigitsChosen(config.digits)],
                    PromptModel::Done,
                ),
            )
        },
        None => if answer.len() == 0 {
            (
                dialog_at(StageModel::Finished, config),
                reply_of(seq![NoticeModel::DigitsChosen(config.digits)], PromptModel::Done),
            )
        } else {
            (
                dialog_at(StageModel::Finished, config),
                reply_of(
                    seq![NoticeModel::DigitsInvalid, NoticeModel::DigitsChosen(config.digits)],
                    PromptModel::Done,
                ),
            )
        },
    }
}

/// The next dialog and reply for a line of input (compared after trimming),
/// with `today` the date offered when the date format is chosen.
pub open spec fn answer_outcome(
    d: DialogModel,
    input: Seq<char>,
    today: Seq<char>,
) -> (DialogModel, ReplyModel) {
    let t = trimmed(input);
    let c = d.config;
    match d.stage {
        StageModel::Choice => after_choice(c, t, today),
        StageModel::Prefix => {
            let p = or_default(t, "IMG"@);
            (
                dialog_at(StageModel::Digits, with_pattern_prefix(c, "PrefixNumber"@, p)),
                reply_of(seq![NoticeModel::PrefixChosen(p)], PromptModel::Digits),
            )
        },
        StageModel::Date(default_date) => {
            let p = or_default(t, default_date);
            (
                dialog_at(StageModel::Digits, with_pattern_prefix(c, "DateNumber"@, p)),
                reply_of(seq![NoticeModel::DateChosen(p)], PromptModel::Digits),
            )
        },
        StageModel::Name => {
            let p = or_default(t, "照片"@);
            (
                dialog_at(StageModel::Digits, with_pattern_prefix(c, "OriginalNumber"@, p)),
                reply_of(seq![NoticeModel::NameChosen(p)], PromptModel::Digits),
            )
        },
        StageModel::Custom => after_custom(c, t),
        StageModel::CustomPrefix => (
            dialog_at(StageModel::Digits, FormatModel { prefix: t, ..c }),
            reply_of(seq![NoticeModel::CustomChosen(c.pattern)], PromptModel::Digits),
        ),
        StageModel::Digits => after_digits(c, t),
        StageModel::Finished => (d, reply_of(seq![], PromptModel::Done)),
    }
}

/// Whether answering at this stage with this input asks for today's date.
pub open spec fn needs_today(stage: StageModel, input: Seq<char>) -> bool {
    stage is Choice && trimmed(input) == "3"@
}

fn one_notice(n: Notice) -> (r: Vec<Notice>)
    ensures
        r@.map_values(|x: Notice| x@) == seq![n@],
{
    let mut v: Vec<Notice> = Vec::new();
    v.push(n);
    assert(v@.map_values(|x: Notice| x@) =~= seq![n@]);
    v
}

fn two_notices(a: Notice, b: Notice) -> (r: Vec<Notice>)
    ensures
        r@.map_values(|x: Notice| x@) == seq![a@, b@],
{
    let mut v: Vec<Notice> = Vec::new();
    v.push(a);
    v.push(b);
    assert(v@.map_values(|x: Notice| x@) =~= seq![a@, b@]);
    v
}

fn no_notices() -> (r: Vec<Notice>)
    ensures
        r@.map_values(|x: Notice| x@) == Seq::<NoticeModel>::empty(),
{
    let v: Vec<Notice> = Vec::new();
    assert(v@.map_values(|x: Notice| x@) =~= Seq::<NoticeModel>::empty());
    v
}

fn text_or(answer: String, default: &str) -> (r: String)
    ensures
        r@ == or_default(answer@, default@),
{
    if answer.unicode_len() == 0 {
        String::from_str(default)
    } else {
        answer
    }
}

impl FormatDialog {
    /// A dialog at the menu, with an empty format of width `default_digits`.
    pub fn new(default_digits: usize) -> (r: FormatDialog)
        ensures
            r@ == dialog_at(
                StageModel::Choice,
                FormatModel {
                    pattern: Seq::empty(),
                    prefix: Seq::empty(),
                    digits: default_digits,
                    custom_format: false,
                },
            ),
    {
        FormatDialog {
            stage: Stage::Choice,
            config: FormatConfig {
                pattern: String::new(),
                prefix: String::new(),
                digits: default_digits,
                custom_format: false,
            },
        }
    }

    /// Takes one line of input, with `today` as the date offered when the
    /// date format is chosen.
    pub fn answer_with_date(&mut self, input: &str, today: &str) -> (r: DialogReply)
        ensures
            (final(self)@, r@) == answer_outcome(old(self)@, input@, today@),
    {
        let t = trim(input);
        let ghost c = self.config@;
        match &self.stage {
            Stage::Choice => {
                let empty = t.unicode_len() == 0;
                proof {
                    reveal_strlit("1");
                    reveal_strlit("2");
                    reveal_strlit("3");
                    reveal_strlit("4");
                    reveal_strlit("5");
                }
                if empty || text_eq(t.as_str(), "1") {
                    self.stage = Stage::Digits;
                    self.config.pattern = String::from_str("NumberOnly");
                    DialogReply { notices: one_notice(Notice::NumberOnlyChosen), prompt: Prompt::Digits }
                } else if text_eq(t.as_str(), "2") {
                    self.stage = Stage::Prefix;
                    DialogReply { notices: no_notices(), prompt: Prompt::Prefix }
                } else if text_eq(t.as_str(), "3") {
                    self.stage = Stage::Date(String::from_str(today));
                    DialogReply { notices: no_notices(), prompt: Prompt::Date(String::from_str(today)) }
                } else if text_eq(t.as_str(), "4") {
                    self.stage = Stage::Name;
                    DialogReply { notices: no_notices(), prompt: Prompt::Name }
                } else if text_eq(t.as_str(), "5") {
                    self.stage = Stage::Custom;
                    DialogReply { notices: no_notices(), prompt: Prompt::Custom }
                } else {
                    self.stage = Stage::Digits;
                    self.config.pattern = String::from_str("NumberOnly");
                    DialogReply { notices: one_notice(Notice::InvalidChoice), prompt: Prompt::Digits }
                }
            },
            Stage::Prefix => {
                let p = text_or(t, "IMG");
                self.stage = Stage::Digits;
                self.config.pattern = String::from_str("PrefixNumber");
                self.config.prefix = p.clone();
                DialogReply { notices: one_notice(Notice::PrefixChosen(p)), prompt: Prompt::Digits }
            },
            Stage::Date(default_date) => {
                let p = text_or(t, default_date.as_str());
                self.stage = Stage::Digits;
                self.config.pattern = String::from_str("DateNumber");
                self.config.prefix = p.clone();
                DialogReply { notices: one_notice(Notice::DateChosen(p)), prompt: Prompt::Digits }
            },
            Stage::Name => {
                let p = text_or(t, "照片");
                self.stage = Stage::Digits;
                self.config.pattern = String::from_str("OriginalNumber");
                self.config.prefix = p.clone();
                DialogReply { notices: one_notice(Notice::NameChosen(p)), prompt: Prompt::Digits }
            },
            Stage::Custom => {
                if t.unicode_len() == 0 {
                    self.stage = Stage::Digits;
                    self.config.pattern = String::from_str("NumberOnly");
                    DialogReply { notices: one_notice(Notice::EmptyCustom), prompt: Prompt::Digits }
                } else {
                    let has_prefix = contains(t.as_str(), "{P}");
                    self.config.pattern = t.clone();
                    self.config.custom_format = true;
                    if has_prefix {
                        self.stage = Stage::CustomPrefix;
                        DialogReply { notices: no_notices(), prompt: Prompt::CustomPrefix }
                    } else {
                        self.stage = Stage::Digits;
                        DialogReply { notices: one_notice(Notice::CustomChosen(t)), prompt: Prompt::Digits }
                    }
                }
            },
            Stage::CustomPrefix => {
                self.stage = Stage::Digits;
                self.config.prefix = t;
                let pattern = self.config.pattern.clone();
                DialogReply { notices: one_notice(Notice::CustomChosen(pattern)), prompt: Prompt::Digits }
            },
            Stage::Digits => {
                self.stage = Stage::Finished;
                match parse_usize(t.as_str()) {
                    Some(d) => {
                        if 2 <= d && d <= 6 {
                            self.config.digits = d;
                            DialogReply { notices: one_notice(Notice::DigitsChosen(d)), prompt: Prompt::Done }
                        } else {
                            let w: usize = self.config.digits;
                            DialogReply {
                                notices: two_notices(Notice::DigitsOutOfRange, Notice::DigitsChosen(w)),
                                prompt: Prompt::Done,
                            }
                        }
                    },
                    None => {
                        let w: usize = self.config.digits;
                        if t.unicode_len() == 0 {
                            DialogReply { notices: one_notice(Notice::DigitsChosen(w)), prompt: Prompt::Done }
                        } else {
                            DialogReply {
                                notices: two_notices(Notice::DigitsInvalid, Notice::DigitsChosen(w)),
                                prompt: Prompt::Done,
                            }
                        }
                    },
                }
            },
            Stage::Finished => {
                DialogReply { notices: no_notices(), prompt: Prompt::Done }
            },
        }
    }

    /// Takes one line of input; today's local date is read only when the date
    /// format is chosen.
    pub fn answer(&mut self, input: &str) -> (r: DialogReply)
        ensures
            exists|today: Seq<char>|
                (needs_today(old(self)@.stage, input@) ==> is_compact_date(today)) && (final(self)@, r@)
                    == #[trigger] answer_outcome(old(self)@, input@, today),
    {
        let wants_date = match &self.stage {
            Stage::Choice => {
                let t = trim(input);
                text_eq(t.as_str(), "3")
            },
            _ => false,
        };
        let today = if wants_date { today_compact_date() } else { String::new() };
        self.answer_with_date(input, today.as_str())
    }
}

/// The view of an optional format.
pub open spec fn opt_format(o: Option<FormatConfig>) -> Option<FormatModel> {
    match o {
        Some(c) => Some(c@),
        None => None,
    }
}

/// The format named on the command line: `1` is the number only, `2` the
/// prefix (`IMG` unless one is given) and the number; anything else, or no
/// format, leaves the choice to the dialog (`None`).
pub open spec fn format_from_args(
    format: Option<Seq<char>>,
    prefix: Option<Seq<char>>,
    digits: usize,
) -> Option<FormatModel> {
    match format {
        Some(f) => if f == "1"@ {
            Some(
                FormatModel {
                    pattern: "NumberOnly"@,
                    prefix: Seq::empty(),
                    digits,
                    custom_format: false,
                },
            )
        } else if f == "2"@ {
            Some(
                FormatModel {
                    pattern: "PrefixNumber"@,
                    prefix: match prefix {
                        Some(p) => p,
                        None => "IMG"@,
                    },
                    digits,
                    custom_format: false,
                },
            )
        } else {
            None
        },
        None => None,
    }
}

/// The format given by the `--format`, `--prefix` and `--digits` arguments,
/// when they give one.
pub fn format_from_arguments(format: Option<&str>, prefix: Option<&str>, digits: usize) -> (r:
    Option<FormatConfig>)
    ensures
        opt_format(r) == format_from_args(
            crate::naming::opt_text(format),
            crate::naming::opt_text(prefix),
            digits,
        ),
{
    match format {
        None => None,
        Some(f) => {
            if text_eq(f, "1") {
                Some(
                    FormatConfig {
                        pattern: String::from_str("NumberOnly"),
                        prefix: String::new(),
                        digits,
                        custom_format: false,
                    },
                )
            } else if text_eq(f, "2") {
                let p = match prefix {
                    Some(p) => String::from_str(p),
                    None => String::from_str("IMG"),
                };
                Some(
                    FormatConfig {
                        pattern: String::from_str("PrefixNumber"),
                        prefix: p,
                        digits,
                        custom_format: false,
                    },
                )
            } else {
                None
            }
        },
    }
}

/// The folder named by a line of input: the trimmed line, or `.` (the
/// current folder) when it is empty.
pub fn requested_directory(input: &str) -> (r: String)
    ensures
        r@ == or_default(trimmed(input@), "."@),
{
    let t = trim(input);
    text_or(t, ".")
}

/// Whether a lowercased answer is `y`.
pub fn is_yes(lowered: &str) -> (r: bool)
    ensures
        r == (lowered@ == "y"@),
{
    text_eq(lowered, "y")
}

/// Whether the answer to the confirmation question accepts the renaming:
/// trimmed and lowercased, it is `y`.
pub fn is_confirmed(answer: &str) -> (r: bool)
    ensures
        r == (lowercase_of(trimmed(answer@)) == "y"@),
{
    let t = trim(answer);
    let lowered = to_lowercase(t.as_str());
    is_yes(lowered.as_str())
}

/// How far the dialog has come: the menu, then the format's own question,
/// then the `{P}` value, then the width, then the end.
pub open spec fn stage_rank(stage: StageModel) -> nat {
    match stage {
        StageModel::Choice => 0,
        StageModel::Prefix => 1,
        StageModel::Date(_) => 1,
        StageModel::Name => 1,
        StageModel::Custom => 1,
        StageModel::CustomPrefix => 2,
        StageModel::Digits => 3,
        StageModel::Finished => 4,
    }
}

/// Every answer moves the dialog forward, so it ends after at most four.
pub proof fn lemma_answer_advances(d: DialogModel, input: Seq<char>, today: Seq<char>)
    requires
        !(d.stage is Finished),
    ensures
        stage_rank(answer_outcome(d, input, today).0.stage) > stage_rank(d.stage),
{
}

/// What holds of the dialog at every stage, for the width it started with:
/// before a format is chosen the pattern is empty; once chosen it is a
/// built-in one or a non-empty trimmed custom one; the width stays the
/// starting one until the end, where it is that or from 2 to 6.
pub open spec fn dialog_consistent(d: DialogModel, default_digits: usize) -> bool {
    let c = d.config;
    &&& stage_rank(d.stage) <= 1 ==> c.pattern.len() == 0 && !c.custom_format
    &&& stage_rank(d.stage) >= 2 ==> c.pattern.len() > 0
    &&& stage_rank(d.stage) >= 2 && !c.custom_format ==> crate::naming::is_builtin_pattern(
        c.pattern,
    )
    &&& c.custom_format ==> trimmed(c.pattern) == c.pattern
    &&& d.stage is CustomPrefix ==> c.custom_format
    &&& !(d.stage is Finished) ==> c.digits == default_digits
    &&& d.stage is Finished ==> c.digits == default_digits || 2 <= c.digits <= 6
}

/// The dialog starts consistent.
pub proof fn lemma_new_dialog_consistent(default_digits: usize)
    ensures
        dialog_consistent(
            dialog_at(
                StageModel::Choice,
                FormatModel {
                    pattern: Seq::empty(),
                    prefix: Seq::empty(),
                    digits: default_digits,
                    custom_format: false,
                },
            ),
            default_digits,
        ),
{
}

/// Every answer keeps the dialog consistent.
pub proof fn lemma_answer_consistent(
    d: DialogModel,
    default_digits: usize,
    input: Seq<char>,
    today: Seq<char>,
)
    requires
        dialog_consistent(d, default_digits),
        !(d.stage is Finished),
    ensures
        dialog_consistent(answer_outcome(d, input, today).0, default_digits),
{
    reveal_strlit("NumberOnly");
    reveal_strlit("PrefixNumber");
    reveal_strlit("DateNumber");
    reveal_strlit("OriginalNumber");
    crate::text::lemma_trim_idempotent(input);
}

/// The dialog fed the lines in order until it is finished or the lines run
/// out, with the last line it took (`last` when it took none).
pub open spec fn run_dialog(
    d: DialogModel,
    lines: Seq<Seq<char>>,
    today: Seq<char>,
    last: Seq<char>,
) -> (DialogModel, Seq<char>)
    decreases lines.len(),
{
    if lines.len() == 0 || d.stage is Finished {
        (d, last)
    } else {
        run_dialog(answer_outcome(d, lines[0], today).0, lines.drop_first(), today, lines[0])
    }
}

/// The dialog as it starts, with the width it was given.
pub open spec fn initial_dialog(default_digits: usize) -> DialogModel {
    dialog_at(
        StageModel::Choice,
        FormatModel {
            pattern: Seq::empty(),
            prefix: Seq::empty(),
            digits: default_digits,
            custom_format: false,
        },
    )
}

/// The width taken from a (trimmed) answer: the number when it is from 2 to 6,
/// otherwise the starting width.
pub open spec fn chosen_width(answer: Seq<char>, default_digits: usize) -> usize {
    match parsed_usize(answer) {
        Some(d) => if 2 <= d <= 6 {
            d
        } else {
            default_digits
        },
        None => default_digits,
    }
}

/// A dialog run that finishes ends with the width read from the last line it
/// took (trimmed) when that is a number from 2 to 6, and with the starting
/// width otherwise.
pub proof fn lemma_run_width(
    d: DialogModel,
    default_digits: usize,
    lines: Seq<Seq<char>>,
    today: Seq<char>,
    last: Seq<char>,
)
    requires
        dialog_consistent(d, default_digits),
        !(d.stage is Finished),
    ensures
        run_dialog(d, lines, today, last).0.stage is Finished ==> run_dialog(
            d,
            lines,
            today,
            last,
        ).0.config.digits == chosen_width(trimmed(run_dialog(d, lines, today, last).1), default_digits),
    decreases lines.len(),
{
    if lines.len() > 0 {
        let d1 = answer_outcome(d, lines[0], today).0;
        lemma_answer_consistent(d, default_digits, lines[0], today);
        if d1.stage is Finished {
            assert(run_dialog(d1, lines.drop_first(), today, lines[0]) == (d1, lines[0]));
        } else {
            lemma_run_width(d1, default_digits, lines.drop_first(), today, lines[0]);
        }
    }
}

/// From the `{P}` value on, the rest of a run keeps the pattern and its kind;
/// from the width question on, it keeps the prefix too.
proof fn lemma_run_keeps_format(d: DialogModel, lines: Seq<Seq<char>>, today: Seq<char>, last: Seq<char>)
    requires
        stage_rank(d.stage) >= 2,
    ensures
        run_dialog(d, lines, today, last).0.config.pattern == d.config.pattern,
        run_dialog(d, lines, today, last).0.config.custom_format == d.config.custom_format,
        stage_rank(d.stage) >= 3 ==> run_dialog(d, lines, today, last).0.config.prefix
            == d.config.prefix,
        stage_rank(run_dialog(d, lines, today, last).0.stage) >= stage_rank(d.stage),
    decreases lines.len(),
{
    if lines.len() > 0 && !(d.stage is Finished) {
        let d1 = answer_outcome(d, lines[0], today).0;
        lemma_run_keeps_format(d1, lines.drop_first(), today, lines[0]);
    }
}

/// A dialog run from the start that finishes took at least two lines. With
/// `c` the first and `u` the second (trimmed): the format is custom exactly
/// when `c` is `5` and `u` is not empty, and then its pattern is `u`;
/// otherwise the pattern is a built-in one; and when `c` is none of `2` to `5`
/// the pattern is `NumberOnly` with no prefix.
pub proof fn lemma_run_format(default_digits: usize, lines: Seq<Seq<char>>, today: Seq<char>)
    ensures
        ({
            let f = run_dialog(initial_dialog(default_digits), lines, today, Seq::empty()).0;
            f.stage is Finished ==> {
                &&& lines.len() >= 2
                &&& f.config.custom_format == (trimmed(lines[0]) == "5"@ && trimmed(lines[1]).len()
                    > 0)
                &&& f.config.custom_format ==> f.config.pattern == trimmed(lines[1])
                &&& !f.config.custom_format ==> crate::naming::is_builtin_pattern(f.config.pattern)
                &&& !(trimmed(lines[0]) == "2"@ || trimmed(lines[0]) == "3"@ || trimmed(lines[0])
                    == "4"@ || trimmed(lines[0]) == "5"@) ==> f.config.pattern == "NumberOnly"@
                    && f.config.prefix.len() == 0
            }
        }),
{
    reveal_strlit("1");
    reveal_strlit("2");
    reveal_strlit("3");
    reveal_strlit("4");
    reveal_strlit("5");
    let d0 = initial_dialog(default_digits);
    let f = run_dialog(d0, lines, today, Seq::empty()).0;
    if lines.len() == 0 {
        assert(f == d0);
    } else {
        let c = trimmed(lines[0]);
        let d1 = answer_outcome(d0, lines[0], today).0;
        let rest = lines.drop_first();
        assert(f == run_dialog(d1, rest, today, lines[0]).0);
        if c == "2"@ || c == "3"@ || c == "4"@ || c == "5"@ {
            assert(c.len() == 1);
            assert("5"@[0] == '5' && "1"@[0] == '1');
            assert(stage_rank(d1.stage) == 1);
            if rest.len() == 0 {
                assert(f == d1);
            } else {
                assert(rest[0] == lines[1]);
                let u = trimmed(lines[1]);
                let d2 = answer_outcome(d1, rest[0], today).0;
                assert(f == run_dialog(d2, rest.drop_first(), today, rest[0]).0);
                if c == "5"@ {
                    assert(d1.stage is Custom);
                    assert(d2 == after_custom(d1.config, u).0);
                    assert(d2.config.custom_format == (u.len() > 0));
                } else {
                    assert(!d2.config.custom_format);
                    assert(crate::naming::is_builtin_pattern(d2.config.pattern));
                }
                assert(stage_rank(d2.stage) >= 2);
                lemma_run_keeps_format(d2, rest.drop_first(), today, rest[0]);
            }
        } else {
            assert(d1.config.pattern == "NumberOnly"@);
            assert(d1.config.prefix.len() == 0);
            assert(!d1.config.custom_format);
            assert(stage_rank(d1.stage) == 3);
            lemma_run_keeps_format(d1, rest, today, lines[0]);
            if rest.len() > 0 {
                assert(rest[0] == lines[1]);
            } else {
                assert(f == d1);
            }
        }
    }
}

/// At the prefix question a non-blank answer (trimmed) becomes the prefix of
/// the prefix-and-number format, a blank one gives `IMG`; the width is kept
/// and the width question comes next.
pub proof fn lemma_prefix_answer(d: DialogModel, input: Seq<char>, today: Seq<char>)
    requires
        d.stage is Prefix,
    ensures
        ({
            let (n, r) = answer_outcome(d, input, today);
            let t = trimmed(input);
            &&& n.stage is Digits
            &&& n.config.pattern == "PrefixNumber"@
            &&& t.len() > 0 ==> n.config.prefix == t
            &&& t.len() == 0 ==> n.config.prefix == "IMG"@
            &&& n.config.digits == d.config.digits
            &&& n.config.custom_format == d.config.custom_format
            &&& r.notices == seq![NoticeModel::PrefixChosen(n.config.prefix)]
            &&& r.prompt is Digits
        }),
{
}

/// At the date question a non-blank answer (trimmed) becomes the prefix of
/// the date-and-number format, a blank one gives the date offered.
pub proof fn lemma_date_answer(d: DialogModel, input: Seq<char>, today: Seq<char>)
    requires
        d.stage is Date,
    ensures
        ({
            let (n, r) = answer_outcome(d, input, today);
            let t = trimmed(input);
            &&& n.stage is Digits
            &&& n.config.pattern == "DateNumber"@
            &&& t.len() > 0 ==> n.config.prefix == t
            &&& t.len() == 0 ==> n.config.prefix == d.stage->Date_0
            &&& n.config.digits == d.config.digits
            &&& r.notices == seq![NoticeModel::DateChosen(n.config.prefix)]
            &&& r.prompt is Digits
        }),
{
}

/// At the kept-name question a non-blank answer (trimmed) becomes the prefix
/// of the name-and-number format, a blank one gives `照片`.
pub proof fn lemma_name_answer(d: DialogModel, input: Seq<char>, today: Seq<char>)
    requires
        d.stage is Name,
    ensures
        ({
            let (n, r) = answer_outcome(d, input, today);
            let t = trimmed(input);
            &&& n.stage is Digits
            &&& n.config.pattern == "OriginalNumber"@
            &&& t.len() > 0 ==> n.config.prefix == t
            &&& t.len() == 0 ==> n.config.prefix == "照片"@
            &&& n.config.digits == d.config.digits
            &&& r.notices == seq![NoticeModel::NameChosen(n.config.prefix)]
            &&& r.prompt is Digits
        }),
{
}

/// At the custom pattern question a blank answer falls back to the number
/// only; any other answer (trimmed) becomes the custom pattern, and the `{P}`
/// value is asked for next exactly when the pattern holds `{P}`.
pub proof fn lemma_custom_answer(d: DialogModel, input: Seq<char>, today: Seq<char>)
    requires
        d.stage is Custom,
    ensures
        ({
            let (n, r) = answer_outcome(d, input, today);
            let t = trimmed(input);
            &&& t.len() == 0 ==> n.config.pattern == "NumberOnly"@ && n.config.custom_format
                == d.config.custom_format && n.stage is Digits && r.notices == seq![
                NoticeModel::EmptyCustom,
            ]
            &&& t.len() > 0 ==> n.config.pattern == t && n.config.custom_format
            &&& t.len() > 0 ==> (n.stage is CustomPrefix <==> contains_text(t, "{P}"@))
            &&& t.len() > 0 && !contains_text(t, "{P}"@) ==> n.stage is Digits && r.notices
                == seq![NoticeModel::CustomChosen(t)]
            &&& n.config.prefix == d.config.prefix
            &&& n.config.digits == d.config.digits
        }),
{
}

/// The answer to the `{P}` question (trimmed, blank or not) becomes the
/// prefix; the custom pattern is kept and reported.
pub proof fn lemma_custom_prefix_answer(d: DialogModel, input: Seq<char>, today: Seq<char>)
    requires
        d.stage is CustomPrefix,
    ensures
        ({
            let (n, r) = answer_outcome(d, input, today);
            &&& n.stage is Digits
            &&& n.config.prefix == trimmed(input)
            &&& n.config.pattern == d.config.pattern
            &&& n.config.custom_format == d.config.custom_format
            &&& n.config.digits == d.config.digits
            &&& r.notices == seq![NoticeModel::CustomChosen(d.config.pattern)]
        }),
{
}

/// The answer to the width question: a number from 2 to 6 (trimmed, as
/// `parse_usize` reads it) becomes the width; anything else keeps the width.
/// The dialog is then finished, reporting the width in effect last.
pub proof fn lemma_digits_answer(d: DialogModel, input: Seq<char>, today: Seq<char>)
    requires
        d.stage is Digits,
    ensures
        ({
            let (n, r) = answer_outcome(d, input, today);
            let t = trimmed(input);
            &&& n.stage is Finished
            &&& r.prompt is Done
            &&& forall|w: usize| parsed_usize(t) == Some(w) && 2 <= w <= 6 ==> n.config.digits == w
            &&& !(exists|w: usize| parsed_usize(t) == Some(w) && 2 <= w <= 6) ==> n.config.digits
                == d.config.digits
            &&& n.config.pattern == d.config.pattern
            &&& n.config.prefix == d.config.prefix
            &&& n.config.custom_format == d.config.custom_format
            &&& r.notices.len() > 0 && r.notices.last() == NoticeModel::DigitsChosen(
                n.config.digits,
            )
        }),
{
}

/// The menu answer (trimmed): blank or `1` gives the number only, `2` to `5`
/// open their question (`3` offering `today`), anything else is reported and
/// gives the number only.
pub proof fn lemma_choice_answer(d: DialogModel, input: Seq<char>, today: Seq<char>)
    requires
        d.stage is Choice,
    ensures
        ({
            let (n, r) = answer_outcome(d, input, today);
            let t = trimmed(input);
            &&& (t.len() == 0 || t == "1"@) ==> n.stage is Digits && n.config.pattern
                == "NumberOnly"@ && r.notices == seq![NoticeModel::NumberOnlyChosen]
            &&& t == "2"@ ==> n.stage is Prefix && r.prompt is Prefix
            &&& t == "3"@ ==> n.stage == StageModel::Date(today) && r.prompt == PromptModel::Date(
                today,
            )
            &&& t == "4"@ ==> n.stage is Name && r.prompt is Name
            &&& t == "5"@ ==> n.stage is Custom && r.prompt is Custom
            &&& !(t.len() == 0 || t == "1"@ || t == "2"@ || t == "3"@ || t == "4"@ || t == "5"@)
                ==> n.stage is Digits && n.config.pattern == "NumberOnly"@ && r.notices == seq![
                NoticeModel::InvalidChoice,
            ]
            &&& n.config.prefix == d.config.prefix
            &&& n.config.digits == d.config.digits
            &&& n.config.custom_format == d.config.custom_format
        }),
{
    reveal_strlit("1");
    reveal_strlit("2");
    reveal_strlit("3");
    reveal_strlit("4");
    reveal_strlit("5");
    assert("1"@[0] == '1' && "2"@[0] == '2' && "3"@[0] == '3' && "4"@[0] == '4' && "5"@[0] == '5');
}

/// A format from the command line always has the width given by `--digits`,
/// is never custom, and exists exactly for `1` (the number only, no prefix)
/// and `2` (the prefix given, or `IMG`, and the number).
pub proof fn lemma_format_from_args(
    format: Option<Seq<char>>,
    prefix: Option<Seq<char>>,
    digits: usize,
)
    ensures
        format_from_args(format, prefix, digits) matches Some(c) ==> c.digits == digits
            && !c.custom_format,
        format_from_args(format, prefix, digits) is Some <==> (format == Some("1"@) || format
            == Some("2"@)),
        format == Some("1"@) ==> format_from_args(format, prefix, digits) == Some(
            FormatModel {
                pattern: "NumberOnly"@,
                prefix: Seq::empty(),
                digits,
                custom_format: false,
            },
        ),
        format == Some("2"@) ==> (format_from_args(format, prefix, digits) matches Some(c)
            && c.pattern == "PrefixNumber"@ && (prefix matches Some(p) ==> c.prefix == p) && (
        prefix is None ==> c.prefix == "IMG"@)),
{
    reveal_strlit("1");
    reveal_strlit("2");
    assert("1"@[0] == '1' && "2"@[0] == '2');
}

} // verus!

//! The lines that an operator types to issue or revoke a license, and what
//! each of them must hold.

use crate::request::{key_of, parse_key, parsed_key};
use vstd::prelude::*;

verus! {

/// Why a line of the operator was refused.
#[derive(Debug, Clone, Copy, PartialEq, Eq, Structural)]
pub enum InputError {
    /// The comment is empty.
    EmptyComment,
    /// The activation limit is no number.
    LimitNotANumber,
    /// The activation limit is a number below 1.
    LimitNotPositive,
    /// The expiry is neither a Unix time nor "infinity".
    BadExpiry,
    /// The checksum is empty.
    EmptyChecksum,
    /// The key is empty.
    EmptyKey,
    /// The key is not in the key format.
    KeyNotUuid,
    /// The operator did not confirm.
    NotConfirmed,
}

/// What the operator wants for the expiry.
#[derive(Debug, Clone, PartialEq, Eq)]
pub enum ExpiryInput {
    /// The license never expires.
    Never,
    /// The license expires at the Unix time that the text spells.
    At(String),
}

/// What the operator is asked, one line at a time.
#[derive(Debug, Clone, Copy, PartialEq, Eq, Structural)]
pub enum Question {
    /// The comment of a new license.
    Comment,
    /// The activation limit of a new license.
    Limit,
    /// The expiry of a new license.
    Expiry,
    /// The checksum text of a new license.
    Checksum,
    /// The key of the license to revoke.
    Key,
    /// Whether the license is really to be revoked.
    Confirmation,
}

/// The two dialogues with the operator.
#[derive(Debug, Clone, Copy, PartialEq, Eq, Structural)]
pub enum Dialogue {
    /// The questions for a new license.
    Issue,
    /// The questions for a revocation.
    Revoke,
}

/// What follows an answer of the operator.
#[derive(Debug, Clone, Copy, PartialEq, Eq, Structural)]
pub enum Next {
    /// The answer is taken; this is the next question.
    Ask(Question),
    /// The answer is refused, and with it the whole dialogue.
    Refuse(InputError),
    /// The answer is taken and nothing is left to ask.
    Done,
}

/// The answers that the operator has given so far.
#[derive(Debug, Clone, PartialEq, Eq)]
pub struct Form {
    /// The comment of the new license.
    pub comment: Option<String>,
    /// The activation limit of the new license, which is 1 or more.
    pub ip_limit: Option<i32>,
    /// The expiry of the new license.
    pub expiry: Option<ExpiryInput>,
    /// The checksum text of the new license.
    pub checksum: Option<String>,
    /// The key of the license to revoke.
    pub key: Option<u128>,
    /// Whether the operator has confirmed the revocation.
    pub confirmed: bool,
}

/// The answers of a form as mathematical values. An expiry of `None` is
/// "never"; any other is the text that is to spell a Unix time.
pub struct FormView {
    pub comment: Option<Seq<char>>,
    pub ip_limit: Option<i32>,
    pub expiry: Option<Option<Seq<char>>>,
    pub checksum: Option<Seq<char>>,
    pub key: Option<u128>,
    pub confirmed: bool,
}

/// One accepted answer as a mathematical value.
pub enum AnswerView {
    Comment(Seq<char>),
    Limit(i32),
    Expiry(Option<Seq<char>>),
    Checksum(Seq<char>),
    Key(u128),
    Confirmed,
}

/// A text in which every match of a pattern, found from left to right and
/// none overlapping another, is replaced.
pub open spec fn replaced(s: Seq<char>, pattern: Seq<char>, with: Seq<char>) -> Seq<char>
    recommends
        pattern.len() > 0,
    decreases s.len(),
{
    if pattern.len() == 0 || s.len() < pattern.len() {
        s
    } else if s.subrange(0, pattern.len() as int) == pattern {
        with + replaced(s.skip(pattern.len() as int), pattern, with)
    } else {
        seq![s[0]] + replaced(s.skip(1), pattern, with)
    }
}

/// Whether a text occurs somewhere in another.
pub open spec fn occurs_in(needle: Seq<char>, hay: Seq<char>) -> bool {
    exists|i: int|
        0 <= i && i + needle.len() <= hay.len() && #[trigger] hay.subrange(
            i,
            i + needle.len(),
        ) == needle
}

/// The number that decimal digits spell.
pub open spec fn decimal_value(digits: Seq<char>) -> int
    decreases digits.len(),
{
    if digits.len() == 0 {
        0
    } else {
        decimal_value(digits.drop_last()) * 10 + (digits.last() as int - 48)
    }
}

/// Whether a text consists of the digits 0 to 9 and has at least one.
pub open spec fn is_decimal(digits: Seq<char>) -> bool {
    &&& digits.len() > 0
    &&& forall|i: int| 0 <= i < digits.len() ==> 48 <= (#[trigger] digits[i]) as int <= 57
}

/// The 32-bit integer that a text spells: an optional sign, then decimal
/// digits and nothing else, with a value that fits.
pub open spec fn decimal_i32(s: Seq<char>) -> Option<i32> {
    let signed = s.len() > 0 && (s[0] == '-' || s[0] == '+');
    let digits = if signed {
        s.skip(1)
    } else {
        s
    };
    let value = if s.len() > 0 && s[0] == '-' {
        -decimal_value(digits)
    } else {
        decimal_value(digits)
    };
    if is_decimal(digits) && -0x8000_0000 <= value <= 0x7fff_ffff {
        Some(value as i32)
    } else {
        None
    }
}

/// The lower-case form that `str::to_lowercase` gives a text.
pub uninterp spec fn lowercased(s: Seq<char>) -> Seq<char>;

/// Calls `str::replace`. Trusted: every match of the pattern, taken from
/// left to right without overlap, is replaced, and the rest is copied.
#[verifier::external_body]
fn replace_all(text: &str, pattern: &str, with: &str) -> (r: String)
    requires
        pattern@.len() > 0,
    ensures
        r@ == replaced(text@, pattern@, with@),
{
    text.replace(pattern, with)
}

/// Calls `str::to_lowercase`. Trusted: the result is the one named
/// `lowercased`.
#[verifier::external_body]
fn lowercase(text: &str) -> (r: String)
    ensures
        r@ == lowercased(text@),
{
    text.to_lowercase()
}

/// Calls `str::contains` with a text as the pattern. Trusted: the result
/// says whether the pattern matches some part of the text.
#[verifier::external_body]
fn contains_text(hay: &str, needle: &str) -> (b: bool)
    ensures
        b == occurs_in(needle@, hay@),
{
    hay.contains(needle)
}

/// Calls `str::parse` for an `i32`. Trusted: the call succeeds exactly on an
/// optional sign followed by decimal digits whose value fits, and returns
/// that value.
#[verifier::external_body]
fn parse_i32(text: &str) -> (r: Option<i32>)
    ensures
        r == decimal_i32(text@),
{
    text.parse::<i32>().ok()
}

/// A line without its line endings: every carriage return that a line feed
/// follows is removed together with it.
pub open spec fn stripped(line: Seq<char>) -> Seq<char> {
    replaced(line, seq!['\r', '\n'], Seq::<char>::empty())
}

/// What a line of confirmation says, given its lower-case form: it
/// confirms if that is "y" or holds "yes".
pub open spec fn confirms(lowered: Seq<char>) -> bool {
    lowered == seq!['y'] || occurs_in(seq!['y', 'e', 's'], lowered)
}

/// What a line says of the expiry, given the line without its ending and
/// the lower-case form of that: nothing, or the word "infinity" in any
/// case, asks for a license that never expires.
pub open spec fn asks_for_never(text: Seq<char>, lowered: Seq<char>) -> bool {
    text.len() == 0 || lowered == seq!['i', 'n', 'f', 'i', 'n', 'i', 't', 'y']
}

impl InputError {
    /// The sentence that tells the operator what was wrong.
    pub open spec fn message_text(self) -> Seq<char> {
        match self {
            InputError::EmptyComment => "Comment cannot be empty."@,
            InputError::LimitNotANumber => "IP limit must be a number."@,
            InputError::LimitNotPositive => "IP limit must be at least 1."@,
            InputError::BadExpiry =>
                "Expiration date format is not Unix time (64 bit integer) or 'infinity'."@,
            InputError::EmptyChecksum => "Checksum cannot be empty."@,
            InputError::EmptyKey => "Key cannot be empty."@,
            InputError::KeyNotUuid => "Key format must be UUID."@,
            InputError::NotConfirmed => "Terminating delete process."@,
        }
    }

    /// The sentence that tells the operator what was wrong.
    pub fn message(&self) -> (s: String)
        ensures
            s@ == self.message_text(),
    {
        match self {
            InputError::EmptyComment => "Comment cannot be empty.",
            InputError::LimitNotANumber => "IP limit must be a number.",
            InputError::LimitNotPositive => "IP limit must be at least 1.",
            InputError::BadExpiry =>
                "Expiration date format is not Unix time (64 bit integer) or 'infinity'.",
            InputError::EmptyChecksum => "Checksum cannot be empty.",
            InputError::EmptyKey => "Key cannot be empty.",
            InputError::KeyNotUuid => "Key format must be UUID.",
            InputError::NotConfirmed => "Terminating delete process.",
        }.to_owned()
    }
}

/// The line without its line endings.
pub fn remove_crlf(line: &str) -> (r: String)
    ensures
        r@ == stripped(line@),
{
    proof {
        reveal_strlit("\r\n");
        reveal_strlit("");
        assert("\r\n"@ =~= seq!['\r', '\n']);
        assert(""@ =~= Seq::<char>::empty());
    }
    replace_all(line, "\r\n", "")
}

/// The line without its line endings, or `empty` where nothing is left.
pub fn read_text(line: &str, empty: InputError) -> (r: Result<String, InputError>)
    ensures
        match r {
            Ok(text) => text@ == stripped(line@) && text@.len() > 0,
            Err(e) => e == empty && stripped(line@).len() == 0,
        },
{
    let text = remove_crlf(line);
    if text.as_str().is_empty() {
        Err(empty)
    } else {
        Ok(text)
    }
}

/// The comment of a new license, which must not be empty.
pub fn read_comment(line: &str) -> (r: Result<String, InputError>)
    ensures
        match r {
            Ok(text) => text@ == stripped(line@) && text@.len() > 0,
            Err(e) => e == InputError::EmptyComment && stripped(line@).len() == 0,
        },
{
    read_text(line, InputError::EmptyComment)
}

/// The checksum text of a new license, which must not be empty.
pub fn read_checksum(line: &str) -> (r: Result<String, InputError>)
    ensures
        match r {
            Ok(text) => text@ == stripped(line@) && text@.len() > 0,
            Err(e) => e == InputError::EmptyChecksum && stripped(line@).len() == 0,
        },
{
    read_text(line, InputError::EmptyChecksum)
}

/// The activation limit that a line asks for: 1 where the line is empty,
/// and else the number that it spells, which must be 1 or more. A text that
/// spells no number and a number below 1 are refused, each in its own way.
pub open spec fn limit_of(text: Seq<char>) -> Result<i32, InputError> {
    if text.len() == 0 {
        Ok(1)
    } else {
        match decimal_i32(text) {
            Some(n) => if n >= 1 {
                Ok(n)
            } else {
                Err(InputError::LimitNotPositive)
            },
            None => Err(InputError::LimitNotANumber),
        }
    }
}

/// The activation limit of a new license: 1 where the operator typed
/// nothing, and else the number typed, which must be 1 or more.
pub fn read_limit(line: &str) -> (r: Result<i32, InputError>)
    ensures
        r == limit_of(stripped(line@)),
        r matches Ok(n) ==> n >= 1,
{
    let text = remove_crlf(line);
    if text.as_str().is_empty() {
        return Ok(1);
    }
    match parse_i32(text.as_str()) {
        Some(n) => if n >= 1 {
            Ok(n)
        } else {
            Err(InputError::LimitNotPositive)
        },
        None => Err(InputError::LimitNotANumber),
    }
}

/// What the expiry line asks for, given its text without the line ending
/// and the lower-case form of that text.
pub fn expiry_from(text: String, lowered: &str) -> (r: ExpiryInput)
    ensures
        match r {
            ExpiryInput::Never => asks_for_never(text@, lowered@),
            ExpiryInput::At(t) => !asks_for_never(text@, lowered@) && t@ == text@,
        },
{
    proof {
        reveal_strlit("infinity");
        assert("infinity"@ =~= seq!['i', 'n', 'f', 'i', 'n', 'i', 't', 'y']);
    }
    let word = "infinity".to_owned();
    let low = lowered.to_owned();
    if text.as_str().is_empty() || low == word {
        ExpiryInput::Never
    } else {
        ExpiryInput::At(text)
    }
}

/// The expiry of a new license: never, where the operator typed nothing or
/// "infinity" in any case; else the text that is to spell a Unix time.
pub fn read_expiry(line: &str) -> (r: ExpiryInput)
    ensures
        match r {
            ExpiryInput::Never => asks_for_never(stripped(line@), lowercased(stripped(line@))),
            ExpiryInput::At(t) => !asks_for_never(stripped(line@), lowercased(stripped(line@)))
                && t@ == stripped(line@),
        },
{
    let text = remove_crlf(line);
    let lowered = lowercase(text.as_str());
    expiry_from(text, lowered.as_str())
}

/// The key of the license to revoke: `EmptyKey` where the operator typed
/// nothing, `KeyNotUuid` where the key parser refuses the text.
pub fn read_key(line: &str) -> (r: Result<u128, InputError>)
    ensures
        r == if stripped(line@).len() == 0 {
            Err::<u128, InputError>(InputError::EmptyKey)
        } else {
            match key_of(parsed_key(stripped(line@))) {
                Ok(key) => Ok(key),
                Err(_) => Err(InputError::KeyNotUuid),
            }
        },
{
    let text = remove_crlf(line);
    if text.as_str().is_empty() {
        return Err(InputError::EmptyKey);
    }
    match parse_key(text.as_str()) {
        Ok(key) => Ok(key),
        Err(_) => Err(InputError::KeyNotUuid),
    }
}

/// Whether a lower-case line confirms: it is "y" or holds "yes".
pub fn confirmation_from(lowered: &str) -> (r: Result<(), InputError>)
    ensures
        r is Ok <==> confirms(lowered@),
        r is Err ==> r == Err::<(), InputError>(InputError::NotConfirmed),
{
    proof {
        reveal_strlit("y");
        reveal_strlit("yes");
        assert("y"@ =~= seq!['y']);
        assert("yes"@ =~= seq!['y', 'e', 's']);
    }
    let low = lowered.to_owned();
    let yes = "y".to_owned();
    if low == yes || contains_text(lowered, "yes") {
        Ok(())
    } else {
        Err(InputError::NotConfirmed)
    }
}

/// Whether the operator confirmed the revocation: the line, in lower case,
/// is "y" or holds "yes".
pub fn read_confirmation(line: &str) -> (r: Result<(), InputError>)
    ensures
        r is Ok <==> confirms(lowercased(stripped(line@))),
        r is Err ==> r == Err::<(), InputError>(InputError::NotConfirmed),
{
    let text = remove_crlf(line);
    let lowered = lowercase(text.as_str());
    confirmation_from(lowered.as_str())
}

impl View for ExpiryInput {
    type V = Option<Seq<char>>;

    open spec fn view(&self) -> Option<Seq<char>> {
        match self {
            ExpiryInput::Never => None,
            ExpiryInput::At(text) => Some(text@),
        }
    }
}

/// The text of an answer that may be missing.
pub open spec fn text_view(answer: Option<String>) -> Option<Seq<char>> {
    match answer {
        Some(text) => Some(text@),
        None => None,
    }
}

impl View for Form {
    type V = FormView;

    open spec fn view(&self) -> FormView {
        FormView {
            comment: text_view(self.comment),
            ip_limit: self.ip_limit,
            expiry: match self.expiry {
                Some(e) => Some(e@),
                None => None,
            },
            checksum: text_view(self.checksum),
            key: self.key,
            confirmed: self.confirmed,
        }
    }
}

/// The question that follows a question whose answer was taken: the four
/// questions for a new license come in the order comment, limit, expiry,
/// checksum; for a revocation the key comes before the confirmation.
pub open spec fn following(question: Question) -> Option<Question> {
    match question {
        Question::Comment => Some(Question::Limit),
        Question::Limit => Some(Question::Expiry),
        Question::Expiry => Some(Question::Checksum),
        Question::Checksum => None,
        Question::Key => Some(Question::Confirmation),
        Question::Confirmation => None,
    }
}

/// What an answer to a question says, given the line without its ending
/// and the lower-case form of that, or why it is refused.
pub open spec fn answer_of(question: Question, text: Seq<char>, lowered: Seq<char>) -> Result<
    AnswerView,
    InputError,
> {
    match question {
        Question::Comment => if text.len() == 0 {
            Err(InputError::EmptyComment)
        } else {
            Ok(AnswerView::Comment(text))
        },
        Question::Limit => match limit_of(text) {
            Ok(n) => Ok(AnswerView::Limit(n)),
            Err(e) => Err(e),
        },
        Question::Expiry => if asks_for_never(text, lowered) {
            Ok(AnswerView::Expiry(None))
        } else {
            Ok(AnswerView::Expiry(Some(text)))
        },
        Question::Checksum => if text.len() == 0 {
            Err(InputError::EmptyChecksum)
        } else {
            Ok(AnswerView::Checksum(text))
        },
        Question::Key => if text.len() == 0 {
            Err(InputError::EmptyKey)
        } else {
            match parsed_key(text) {
                Some(key) => Ok(AnswerView::Key(key)),
                None => Err(InputError::KeyNotUuid),
            }
        },
        Question::Confirmation => if confirms(lowered) {
            Ok(AnswerView::Confirmed)
        } else {
            Err(InputError::NotConfirmed)
        },
    }
}

/// What follows an answer: a refusal ends the dialogue at once; an answer
/// that is taken leads to the following question, or to the end.
pub open spec fn next_of(question: Question, text: Seq<char>, lowered: Seq<char>) -> Next {
    match answer_of(question, text, lowered) {
        Err(e) => Next::Refuse(e),
        Ok(_) => match following(question) {
            Some(next) => Next::Ask(next),
            None => Next::Done,
        },
    }
}

/// The form after an answer: an answer that is taken fills its place, and
/// one that is refused leaves the form as it was.
pub open spec fn filled(form: FormView, question: Question, text: Seq<char>, lowered: Seq<char>)
    -> FormView {
    match answer_of(question, text, lowered) {
        Err(_) => form,
        Ok(AnswerView::Comment(t)) => FormView { comment: Some(t), ..form },
        Ok(AnswerView::Limit(n)) => FormView { ip_limit: Some(n), ..form },
        Ok(AnswerView::Expiry(e)) => FormView { expiry: Some(e), ..form },
        Ok(AnswerView::Checksum(t)) => FormView { checksum: Some(t), ..form },
        Ok(AnswerView::Key(k)) => FormView { key: Some(k), ..form },
        Ok(AnswerView::Confirmed) => FormView { confirmed: true, ..form },
    }
}

/// Whether the limit of a form, if it has one, is 1 or more.
pub open spec fn limit_is_positive(form: FormView) -> bool {
    form.ip_limit is Some ==> form.ip_limit->0 >= 1
}

/// The form with no answer in it.
pub open spec fn empty_form() -> FormView {
    FormView {
        comment: None,
        ip_limit: None,
        expiry: None,
        checksum: None,
        key: None,
        confirmed: false,
    }
}

impl Dialogue {
    /// The question that opens the dialogue: the comment for a new license,
    /// the key for a revocation.
    pub open spec fn opening(self) -> Question {
        match self {
            Dialogue::Issue => Question::Comment,
            Dialogue::Revoke => Question::Key,
        }
    }

    /// The question that opens the dialogue.
    pub fn first_question(&self) -> (q: Question)
        ensures
            q == self.opening(),
    {
        match self {
            Dialogue::Issue => Question::Comment,
            Dialogue::Revoke => Question::Key,
        }
    }
}

impl Next {
    /// The next step after a question whose answer was taken.
    fn after(question: Question) -> (n: Next)
        ensures
            n == match following(question) {
                Some(next) => Next::Ask(next),
                None => Next::Done,
            },
    {
        match question {
            Question::Comment => Next::Ask(Question::Limit),
            Question::Limit => Next::Ask(Question::Expiry),
            Question::Expiry => Next::Ask(Question::Checksum),
            Question::Checksum => Next::Done,
            Question::Key => Next::Ask(Question::Confirmation),
            Question::Confirmation => Next::Done,
        }
    }
}

impl Form {
    /// A form without answers.
    pub fn new() -> (form: Form)
        ensures
            form@ == empty_form(),
            limit_is_positive(form@),
    {
        Form {
            comment: None,
            ip_limit: None,
            expiry: None,
            checksum: None,
            key: None,
            confirmed: false,
        }
    }

    /// Takes the operator's line as the answer to a question and says what
    /// follows. An answer that is taken fills its place in the form, and
    /// the next question is asked or the dialogue is done; an answer that is
    /// refused leaves the form as it was and ends the dialogue.
    pub fn answer(&mut self, question: Question, line: &str) -> (n: Next)
        ensures
            n == next_of(question, stripped(line@), lowercased(stripped(line@))),
            final(self)@ == filled(
                old(self)@,
                question,
                stripped(line@),
                lowercased(stripped(line@)),
            ),
            limit_is_positive(old(self)@) ==> limit_is_positive(final(self)@),
    {
        match question {
            Question::Comment => match read_comment(line) {
                Ok(text) => {
                    self.comment = Some(text);
                },
                Err(e) => {
                    return Next::Refuse(e);
                },
            },
            Question::Limit => match read_limit(line) {
                Ok(n) => {
                    self.ip_limit = Some(n);
                },
                Err(e) => {
                    return Next::Refuse(e);
                },
            },
            Question::Expiry => {
                self.expiry = Some(read_expiry(line));
            },
            Question::Checksum => match read_checksum(line) {
                Ok(text) => {
                    self.checksum = Some(text);
                },
                Err(e) => {
                    return Next::Refuse(e);
                },
            },
            Question::Key => match read_key(line) {
                Ok(key) => {
                    self.key = Some(key);
                },
                Err(e) => {
                    return Next::Refuse(e);
                },
            },
            Question::Confirmation => match read_confirmation(line) {
                Ok(()) => {
                    self.confirmed = true;
                },
                Err(e) => {
                    return Next::Refuse(e);
                },
            },
        }
        Next::after(question)
    }
}

/// A dialogue for a new license that is not refused asks its four
/// questions in their order and leaves a form that holds a comment, a limit
/// of 1 or more, an expiry and a checksum.
pub proof fn law_issue_dialogue_fills_the_form(texts: Seq<Seq<char>>, lowered: Seq<Seq<char>>)
    requires
        texts.len() == 4,
        lowered.len() == 4,
        !(next_of(Question::Comment, texts[0], lowered[0]) is Refuse),
        !(next_of(Question::Limit, texts[1], lowered[1]) is Refuse),
        !(next_of(Question::Expiry, texts[2], lowered[2]) is Refuse),
        !(next_of(Question::Checksum, texts[3], lowered[3]) is Refuse),
    ensures
        next_of(Question::Comment, texts[0], lowered[0]) == Next::Ask(Question::Limit),
        next_of(Question::Limit, texts[1], lowered[1]) == Next::Ask(Question::Expiry),
        next_of(Question::Expiry, texts[2], lowered[2]) == Next::Ask(Question::Checksum),
        next_of(Question::Checksum, texts[3], lowered[3]) == Next::Done,
        ({
            let form = filled(
                filled(
                    filled(
                        filled(empty_form(), Question::Comment, texts[0], lowered[0]),
                        Question::Limit,
                        texts[1],
                        lowered[1],
                    ),
                    Question::Expiry,
                    texts[2],
                    lowered[2],
                ),
                Question::Checksum,
                texts[3],
                lowered[3],
            );
            &&& form.comment == Some(texts[0]) && texts[0].len() > 0
            &&& form.ip_limit is Some && form.ip_limit->0 >= 1
            &&& form.ip_limit == limit_of(texts[1]).ok()
            &&& form.expiry is Some
            &&& form.checksum == Some(texts[3]) && texts[3].len() > 0
            &&& form.key is None && !form.confirmed
        }),
{
}

/// A dialogue for a revocation that is not refused asks for the key and
/// then for the confirmation, and leaves a form that holds the key and the
/// confirmation.
pub proof fn law_revoke_dialogue_fills_the_form(texts: Seq<Seq<char>>, lowered: Seq<Seq<char>>)
    requires
        texts.len() == 2,
        lowered.len() == 2,
        !(next_of(Question::Key, texts[0], lowered[0]) is Refuse),
        !(next_of(Question::Confirmation, texts[1], lowered[1]) is Refuse),
    ensures
        next_of(Question::Key, texts[0], lowered[0]) == Next::Ask(Question::Confirmation),
        next_of(Question::Confirmation, texts[1], lowered[1]) == Next::Done,
        ({
            let form = filled(
                filled(empty_form(), Question::Key, texts[0], lowered[0]),
                Question::Confirmation,
                texts[1],
                lowered[1],
            );
            &&& form.key == parsed_key(texts[0]) && form.key is Some
            &&& form.confirmed
        }),
{
}

} // verus!

//! Markdown frontmatter: the block between two `---` lines at the top of a
//! file, and the checks that skill, agent and command metadata must pass.
use vstd::prelude::*;

use crate::models::{mode_named, AgentMode, UnsupportedAgentMode};
use crate::text::{
    chars_of, is_blank, join_lines, join_spans, lemma_lines_of_join, line_spans, lines, plain_line, span_views,
    str_equals, string_from_chars, trim, trim_end, trim_start, trimmed_equals, blank_str,
};

verus! {

/// Why a file's frontmatter block could not be split from its body.
#[derive(Debug, Clone, Copy, PartialEq, Eq)]
pub enum FrontmatterError {
    /// The first line is not a `---` delimiter.
    MissingOpening,
    /// No later line is a `---` delimiter.
    MissingClosing,
}

/// The delimiter line `---`.
pub open spec fn dashes() -> Seq<char> {
    seq!['-', '-', '-']
}

/// The index of the first line at or after `i` that trims to `---`, or
/// `ls.len()` when there is none.
pub open spec fn closing_index(ls: Seq<Seq<char>>, i: int) -> int
    decreases ls.len() - i,
{
    if i >= ls.len() {
        ls.len() as int
    } else if trim(ls[i]) == dashes() {
        i
    } else {
        closing_index(ls, i + 1)
    }
}

/// What `split_frontmatter` gives for `content`: the lines between the opening
/// and the first closing delimiter, and the lines after it, each joined by `'\n'`.
pub open spec fn frontmatter_parts(content: Seq<char>) -> Result<(Seq<char>, Seq<char>), FrontmatterError> {
    let ls = lines(content);
    if ls.len() == 0 || trim(ls[0]) != dashes() {
        Err(FrontmatterError::MissingOpening)
    } else {
        let k = closing_index(ls, 1);
        if k >= ls.len() {
            Err(FrontmatterError::MissingClosing)
        } else {
            Ok((join_lines(ls.subrange(1, k)), join_lines(ls.subrange(k + 1, ls.len() as int))))
        }
    }
}

proof fn lemma_closing_index_bounds(ls: Seq<Seq<char>>, i: int)
    requires
        0 <= i,
    ensures
        i <= closing_index(ls, i) || closing_index(ls, i) == ls.len(),
        closing_index(ls, i) <= ls.len() || closing_index(ls, i) == i,
    decreases ls.len() - i,
{
    if i < ls.len() && trim(ls[i]) != dashes() {
        lemma_closing_index_bounds(ls, i + 1);
    }
}

proof fn lemma_closing_at(ls: Seq<Seq<char>>, j: int, k: int)
    requires
        0 <= j <= k < ls.len(),
        trim(ls[k]) == dashes(),
        forall|i: int| j <= i < k ==> trim(#[trigger] ls[i]) != dashes(),
    ensures
        closing_index(ls, j) == k,
    decreases k - j,
{
    if j < k {
        lemma_closing_at(ls, j + 1, k);
    }
}

/// A file made of a `---` line, YAML lines, a `---` line and body lines
/// splits back into the YAML lines and the body lines, each joined by
/// `'\n'`: when no YAML line is itself a delimiter, no line holds a `'\n'`
/// or ends in `'\r'`, and the file does not end in an empty line.
pub proof fn lemma_frontmatter_round_trip(yaml: Seq<Seq<char>>, body: Seq<Seq<char>>)
    requires
        forall|i: int| 0 <= i < yaml.len() ==> plain_line(#[trigger] yaml[i]) && trim(yaml[i]) != dashes(),
        forall|i: int| 0 <= i < body.len() ==> plain_line(#[trigger] body[i]),
        body.len() == 0 || body.last().len() > 0,
    ensures
        frontmatter_parts(join_lines(seq![dashes()] + yaml + seq![dashes()] + body)) == Ok::<
            (Seq<char>, Seq<char>),
            FrontmatterError,
        >((join_lines(yaml), join_lines(body))),
{
    let d = dashes();
    let ls = seq![d] + yaml + seq![d] + body;
    let k = yaml.len() as int + 1;
    assert(plain_line(d)) by {
        if d.contains('\n') {
            let i = choose|i: int| 0 <= i < d.len() && d[i] == '\n';
            assert(d[i] == '-');
        }
    }
    assert(trim_start(d) == d);
    assert(trim_end(d) == d);
    assert(trim(d) == d);
    assert forall|i: int| 0 <= i < ls.len() implies plain_line(#[trigger] ls[i]) by {
        if 1 <= i < k {
            assert(ls[i] == yaml[i - 1]);
        } else if i > k {
            assert(ls[i] == body[i - k - 1]);
        }
    }
    if body.len() > 0 {
        assert(ls.last() == body.last());
    }
    lemma_lines_of_join(ls);
    assert(ls[k] == d);
    assert forall|i: int| 1 <= i < k implies trim(#[trigger] ls[i]) != dashes() by {
        assert(ls[i] == yaml[i - 1]);
    }
    lemma_closing_at(ls, 1, k);
    assert(ls.subrange(1, k) =~= yaml);
    assert(ls.subrange(k + 1, ls.len() as int) =~= body);
}

fn dashes_vec() -> (v: Vec<char>)
    ensures
        v@ == dashes(),
{
    let mut v: Vec<char> = Vec::new();
    v.push('-');
    v.push('-');
    v.push('-');
    assert(v@ =~= dashes());
    v
}

/// Splits a markdown file into its YAML frontmatter and its body.
pub fn split_frontmatter(content: &str) -> (r: Result<(String, String), FrontmatterError>)
    ensures
        match r {
            Ok((yaml, body)) => frontmatter_parts(content@) == Ok::<_, FrontmatterError>((yaml@, body@)),
            Err(e) => frontmatter_parts(content@) == Err::<(Seq<char>, Seq<char>), _>(e),
        },
{
    let s = chars_of(content);
    let spans = line_spans(&s);
    let ghost ls = lines(s@);
    let delim = dashes_vec();
    if spans.len() == 0 {
        return Err(FrontmatterError::MissingOpening);
    }
    let (a0, b0) = spans[0];
    assert(ls[0] == s@.subrange(a0 as int, b0 as int));
    if !trimmed_equals(&s, a0, b0, &delim) {
        return Err(FrontmatterError::MissingOpening);
    }
    let mut k: usize = 1;
    while k < spans.len()
        invariant
            1 <= k <= spans@.len(),
            ls == span_views(s@, spans@),
            delim@ == dashes(),
            forall|j: int| 0 <= j < spans@.len() ==> #[trigger] spans@[j].0 <= spans@[j].1 <= s@.len(),
            closing_index(ls, 1) == closing_index(ls, k as int),
        ensures
            1 <= k <= spans@.len(),
            closing_index(ls, 1) == closing_index(ls, k as int),
            k < spans@.len() ==> trim(ls[k as int]) == dashes(),
        decreases spans@.len() - k,
    {
        let (a, b) = spans[k];
        assert(ls[k as int] == s@.subrange(a as int, b as int));
        if trimmed_equals(&s, a, b, &delim) {
            break;
        }
        k = k + 1;
    }
    if k >= spans.len() {
        return Err(FrontmatterError::MissingClosing);
    }
    assert(closing_index(ls, k as int) == k);
    assert(ls.len() == spans@.len());
    let yaml = join_spans(&s, &spans, 1, k);
    let body = join_spans(&s, &spans, k + 1, spans.len());
    Ok((string_from_chars(&yaml), string_from_chars(&body)))
}

} // verus!

verus! {

/// The text of a split failure.
pub open spec fn frontmatter_error_text(e: FrontmatterError) -> Seq<char> {
    match e {
        FrontmatterError::MissingOpening => "missing opening frontmatter delimiter"@,
        FrontmatterError::MissingClosing => "missing closing frontmatter delimiter"@,
    }
}

impl FrontmatterError {
    /// What went wrong, in words.
    pub fn message(&self) -> (r: String)
        ensures
            r@ == frontmatter_error_text(*self),
    {
        match self {
            FrontmatterError::MissingOpening => String::from_str("missing opening frontmatter delimiter"),
            FrontmatterError::MissingClosing => String::from_str("missing closing frontmatter delimiter"),
        }
    }
}

/// Why the frontmatter of an artifact's markdown file could not be had.
#[derive(Debug)]
pub enum SourceFileError {
    /// The file could not be read.
    Read { path: String, detail: String },
    /// The file has no frontmatter block.
    Split { path: String, error: FrontmatterError },
    /// The frontmatter is not YAML of the expected shape.
    Decode { path: String, detail: String },
}

/// The text of a file failure, for an artifact of the kind named `kind`.
pub open spec fn source_file_error_text(e: SourceFileError, kind: Seq<char>) -> Seq<char> {
    match e {
        SourceFileError::Read { path, detail } => "failed to read "@ + path@ + ": "@ + detail@,
        SourceFileError::Split { path, error } => "invalid frontmatter in "@ + path@ + ": "@
            + frontmatter_error_text(error),
        SourceFileError::Decode { path, detail } => "failed to parse "@ + kind + " frontmatter in "@
            + path@ + ": "@ + detail@,
    }
}

impl SourceFileError {
    /// What went wrong, in words.
    pub fn message(&self, kind: &str) -> (r: String)
        ensures
            r@ == source_file_error_text(*self, kind@),
    {
        match self {
            SourceFileError::Read { path, detail } => {
                let mut r = String::from_str("failed to read ");
                r.append(path.as_str());
                r.append(": ");
                r.append(detail.as_str());
                r
            },
            SourceFileError::Split { path, error } => {
                let mut r = String::from_str("invalid frontmatter in ");
                r.append(path.as_str());
                r.append(": ");
                let m = error.message();
                r.append(m.as_str());
                r
            },
            SourceFileError::Decode { path, detail } => {
                let mut r = String::from_str("failed to parse ");
                r.append(kind);
                r.append(" frontmatter in ");
                r.append(path.as_str());
                r.append(": ");
                r.append(detail.as_str());
                r
            },
        }
    }
}

/// The fields a skill's `SKILL.md` frontmatter must hold.
#[derive(Debug)]
pub struct RawSkillFrontmatter {
    pub name: String,
    pub description: String,
}

/// A skill's checked metadata.
#[derive(Debug)]
pub struct SkillFrontmatter {
    pub name: String,
    pub description: String,
}

/// Why skill metadata was refused.
#[derive(Debug, Clone, Copy, PartialEq, Eq, Structural)]
pub enum SkillFrontmatterError {
    EmptyName,
    EmptyDescription,
}

/// Checks a skill's metadata: name and description must not be blank.
pub fn parse_skill_frontmatter(raw: RawSkillFrontmatter) -> (r: Result<SkillFrontmatter, SkillFrontmatterError>)
    ensures
        is_blank(raw.name@) ==> r == Err::<SkillFrontmatter, _>(SkillFrontmatterError::EmptyName),
        !is_blank(raw.name@) && is_blank(raw.description@) ==> r == Err::<SkillFrontmatter, _>(
            SkillFrontmatterError::EmptyDescription,
        ),
        !is_blank(raw.name@) && !is_blank(raw.description@) ==> (r matches Ok(f) && f.name
            == raw.name && f.description == raw.description),
{
    if blank_str(raw.name.as_str()) {
        return Err(SkillFrontmatterError::EmptyName);
    }
    if blank_str(raw.description.as_str()) {
        return Err(SkillFrontmatterError::EmptyDescription);
    }
    Ok(SkillFrontmatter { name: raw.name, description: raw.description })
}

/// The `prompt` field of agent frontmatter, as far as Hermes looks at it:
/// absent, a mapping (given by its string keys), or anything else.
#[derive(Debug)]
pub enum PromptField {
    Absent,
    Mapping(Vec<String>),
    Other,
}

/// The fields Hermes reads from an agent's frontmatter.
#[derive(Debug)]
pub struct RawAgentFrontmatter {
    pub description: Option<String>,
    pub mode: Option<String>,
    pub prompt: PromptField,
}

/// An agent's checked metadata.
#[derive(Debug)]
pub struct AgentFrontmatter {
    pub description: String,
    pub mode: Option<AgentMode>,
    pub has_external_prompt: bool,
    pub has_body: bool,
}

/// Why agent metadata was refused.
#[derive(Debug)]
pub enum AgentFrontmatterError {
    MissingDescription,
    EmptyDescription,
    Mode(UnsupportedAgentMode),
}

/// Whether the prompt is a mapping with a `file` key, which names an
/// outside prompt file.
pub open spec fn prompt_names_file(p: PromptField) -> bool {
    match p {
        PromptField::Mapping(keys) => keys@.map_values(|k: String| k@).contains("file"@),
        _ => false,
    }
}

/// Checks an agent's metadata, given its frontmatter fields and its body.
pub fn parse_agent_frontmatter(raw: RawAgentFrontmatter, body: &str) -> (r: Result<AgentFrontmatter, AgentFrontmatterError>)
    ensures
        raw.description.is_none() ==> r matches Err(AgentFrontmatterError::MissingDescription),
        (raw.description matches Some(d) && is_blank(d@)) ==> (r matches Err(
            AgentFrontmatterError::EmptyDescription,
        )),
        (raw.description matches Some(d) && !is_blank(d@)) ==> match raw.mode {
            Some(m) => match mode_named(m@) {
                None => (r matches Err(AgentFrontmatterError::Mode(e)) && e.value == m),
                Some(mode) => (r matches Ok(f) && f.mode == Some(mode)),
            },
            None => (r matches Ok(f) && f.mode.is_none()),
        },
        r matches Ok(f) ==> (raw.description == Some(f.description) && f.has_external_prompt
            == prompt_names_file(raw.prompt) && f.has_body == !is_blank(body@)),
{
    let description = match raw.description {
        None => {
            return Err(AgentFrontmatterError::MissingDescription);
        },
        Some(d) => d,
    };
    if blank_str(description.as_str()) {
        return Err(AgentFrontmatterError::EmptyDescription);
    }
    let mode = match raw.mode {
        None => None,
        Some(m) => match AgentMode::parse(m.as_str()) {
            Ok(mode) => Some(mode),
            Err(_) => {
                return Err(AgentFrontmatterError::Mode(UnsupportedAgentMode { value: m }));
            },
        },
    };
    let has_external_prompt = match &raw.prompt {
        PromptField::Mapping(keys) => has_key(keys, "file"),
        _ => false,
    };
    Ok(AgentFrontmatter { description, mode, has_external_prompt, has_body: !blank_str(body) })
}

/// Whether `key` is among `keys`.
fn has_key(keys: &Vec<String>, key: &str) -> (b: bool)
    ensures
        b == keys@.map_values(|k: String| k@).contains(key@),
{
    let ghost v = keys@.map_values(|k: String| k@);
    let mut i: usize = 0;
    while i < keys.len()
        invariant
            i <= keys@.len(),
            v == keys@.map_values(|k: String| k@),
            forall|j: int| 0 <= j < i ==> v[j] != key@,
        decreases keys@.len() - i,
    {
        if str_equals(keys[i].as_str(), key) {
            assert(v[i as int] == key@);
            return true;
        }
        i = i + 1;
    }
    false
}

/// The fields an OpenCode command's frontmatter may hold.
#[derive(Debug)]
pub struct RawCommandFrontmatter {
    pub description: Option<String>,
    pub agent: Option<String>,
    pub subtask: Option<bool>,
    pub model: Option<String>,
}

/// A command file cut into its parts: the YAML to decode, if there is any
/// that is not blank, and the template body.
#[derive(Debug)]
pub struct CommandParts {
    pub yaml: Option<String>,
    pub body: String,
}

/// How a command file is cut: a file with a frontmatter block keeps its body
/// after the block; a file that does not start with `---` is all body; an
/// unclosed block is an error.
pub open spec fn command_parts_of(content: Seq<char>) -> Result<(Option<Seq<char>>, Seq<char>), FrontmatterError> {
    match frontmatter_parts(content) {
        Ok((yaml, body)) => Ok((if is_blank(yaml) { None } else { Some(yaml) }, body)),
        Err(FrontmatterError::MissingOpening) => Ok((None, content)),
        Err(FrontmatterError::MissingClosing) => Err(FrontmatterError::MissingClosing),
    }
}

/// Cuts a command file into its frontmatter and its template body.
pub fn command_parts(content: &str) -> (r: Result<CommandParts, FrontmatterError>)
    ensures
        match r {
            Ok(p) => command_parts_of(content@) == Ok::<_, FrontmatterError>(
                (
                    match p.yaml {
                        Some(y) => Some(y@),
                        None => None,
                    },
                    p.body@,
                ),
            ),
            Err(e) => command_parts_of(content@) == Err::<(Option<Seq<char>>, Seq<char>), _>(e),
        },
{
    match split_frontmatter(content) {
        Ok((yaml, body)) => {
            let y = if blank_str(yaml.as_str()) {
                None
            } else {
                Some(yaml)
            };
            Ok(CommandParts { yaml: y, body })
        },
        Err(FrontmatterError::MissingOpening) => Ok(CommandParts { yaml: None, body: String::from_str(content) }),
        Err(FrontmatterError::MissingClosing) => Err(FrontmatterError::MissingClosing),
    }
}

} // verus!

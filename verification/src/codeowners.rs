//! The `CODEOWNERS` file of a project: its rules, and the maintainers that
//! it names for the whole project.
//!
//! The file is read line by line. A line without a word, and a line whose
//! first word begins with `#`, says nothing. Every other line is a rule: its
//! first word is a pattern of paths, the words behind it are the owners of
//! those paths. A rule without an owner is an error, and the first such line
//! ends the reading.

use crate::maintainers::{distinct, lemma_distinct, MaintainerSet};
use crate::text::{
    decimal, decimal_string, lemma_words_hold_no_space, lines, split_lines, split_words, texts,
    words,
};
use vstd::prelude::*;

verus! {

/// What a rule says: a pattern of paths and the names of their owners.
pub struct RuleView {
    pub pattern: Seq<char>,
    pub owners: Seq<Seq<char>>,
}

/// What a parse error says: the number of the line, counted from 1, and the
/// pattern that stands alone on it.
pub struct ParseErrorView {
    pub line: nat,
    pub content: Seq<char>,
}

impl ParseErrorView {
    /// The error in words.
    pub open spec fn message(self) -> Seq<char> {
        "Line "@ + decimal(self.line) + " gives no owners for the pattern "@ + self.content
    }
}

/// What one line of the file holds.
pub enum Reading {
    /// Nothing: the line is blank or a comment.
    Nothing,
    /// A rule.
    Rule(RuleView),
    /// A pattern without an owner.
    Malformed(Seq<char>),
}

/// Whether `pattern` stands for every path.
pub open spec fn is_wildcard(pattern: Seq<char>) -> bool {
    pattern == seq!['*']
}

/// What `line` holds.
pub open spec fn read_line(line: Seq<char>) -> Reading {
    let found = words(line);
    if found.len() == 0 || found[0].first() == '#' {
        Reading::Nothing
    } else if found.len() == 1 {
        Reading::Malformed(found[0])
    } else {
        Reading::Rule(RuleView { pattern: found[0], owners: distinct(found.skip(1)) })
    }
}

/// The rules of a file with the lines `lines`, in order; or, where a line is
/// malformed, the first such line.
pub open spec fn read_lines(lines: Seq<Seq<char>>) -> Result<Seq<RuleView>, ParseErrorView>
    decreases lines.len(),
{
    if lines.len() == 0 {
        Ok(Seq::empty())
    } else {
        match read_lines(lines.drop_last()) {
            Err(error) => Err(error),
            Ok(rules) => match read_line(lines.last()) {
                Reading::Nothing => Ok(rules),
                Reading::Rule(rule) => Ok(rules.push(rule)),
                Reading::Malformed(content) => Err(
                    ParseErrorView { line: lines.len(), content },
                ),
            },
        }
    }
}

/// The rules of the file `source`; or, where a line is malformed, the first
/// such line.
pub open spec fn parse(source: Seq<char>) -> Result<Seq<RuleView>, ParseErrorView> {
    read_lines(lines(source))
}

/// The owners that `rules` name for every path: those of the last rule whose
/// pattern is the wildcard. `None` where no rule has that pattern.
pub open spec fn primary(rules: Seq<RuleView>) -> Option<Seq<Seq<char>>>
    decreases rules.len(),
{
    if rules.len() == 0 {
        None
    } else if is_wildcard(rules.last().pattern) {
        Some(rules.last().owners)
    } else {
        primary(rules.drop_last())
    }
}

/// Whether `rule` is one that a line can hold: a pattern that is a word and
/// does not begin with `#`, and at least one owner, none named twice.
pub open spec fn rule_wf(rule: RuleView) -> bool {
    &&& rule.pattern.len() > 0
    &&& rule.pattern.first() != '#'
    &&& rule.owners.len() > 0
    &&& rule.owners.no_duplicates()
}

/// Reading stops at the first malformed line: the error names a line that is
/// malformed, and no line before it is.
pub proof fn lemma_read_lines_fails_fast(lines: Seq<Seq<char>>)
    ensures
        match read_lines(lines) {
            Ok(_) => forall|i: int| 0 <= i < lines.len() ==> !(read_line(lines[i]) is Malformed),
            Err(error) => {
                &&& 1 <= error.line <= lines.len()
                &&& read_line(lines[error.line - 1]) == Reading::Malformed(error.content)
                &&& forall|i: int| 0 <= i < error.line - 1 ==> !(read_line(lines[i]) is Malformed)
            },
        },
    decreases lines.len(),
{
    if lines.len() > 0 {
        let init = lines.drop_last();
        lemma_read_lines_fails_fast(init);
        assert forall|i: int| 0 <= i < init.len() implies init[i] == lines[i] by {}
        match read_lines(init) {
            Ok(_) => {
                assert forall|i: int| 0 <= i < init.len() implies !(read_line(
                    lines[i],
                ) is Malformed) by {
                    assert(!(read_line(init[i]) is Malformed));
                }
            },
            Err(error) => {
                assert(read_line(init[error.line - 1]) == Reading::Malformed(error.content));
                assert forall|i: int| 0 <= i < error.line - 1 implies !(read_line(
                    lines[i],
                ) is Malformed) by {
                    assert(!(read_line(init[i]) is Malformed));
                }
            },
        }
    }
}

/// An error stays: where the first lines of a file cannot be read, the file
/// cannot be read, for the same reason.
pub proof fn lemma_read_lines_error_stays(lines: Seq<Seq<char>>, n: int)
    requires
        0 <= n <= lines.len(),
        read_lines(lines.take(n)) is Err,
    ensures
        read_lines(lines) == read_lines(lines.take(n)),
    decreases lines.len() - n,
{
    if n < lines.len() {
        assert(lines.take(n + 1).drop_last() == lines.take(n));
        lemma_read_lines_error_stays(lines, n + 1);
    } else {
        assert(lines.take(n) == lines);
    }
}

/// A file that is read without error gives the rules of its lines, in the
/// order of the lines, and each of them is well formed.
pub proof fn lemma_read_lines_rules(lines: Seq<Seq<char>>)
    requires
        read_lines(lines) is Ok,
    ensures
        forall|k: int|
            0 <= k < read_lines(lines)->Ok_0.len() ==> rule_wf(
                #[trigger] read_lines(lines)->Ok_0[k],
            ),
        forall|k: int|
            0 <= k < read_lines(lines)->Ok_0.len() ==> exists|i: int|
                0 <= i < lines.len() && read_line(lines[i]) == Reading::Rule(
                    #[trigger] read_lines(lines)->Ok_0[k],
                ),
    decreases lines.len(),
{
    if lines.len() > 0 {
        let init = lines.drop_last();
        lemma_read_lines_rules(init);
        let rules = read_lines(lines)->Ok_0;
        let before = read_lines(init)->Ok_0;
        assert forall|k: int| 0 <= k < rules.len() implies rule_wf(#[trigger] rules[k])
            && exists|i: int|
            0 <= i < lines.len() && read_line(lines[i]) == Reading::Rule(rules[k]) by {
            if k < before.len() {
                assert(rules[k] == before[k]);
                let i: int = choose|i: int|
                    0 <= i < init.len() && read_line(init[i]) == Reading::Rule(before[k]);
                assert(lines[i] == init[i]);
            } else {
                let found = words(lines.last());
                assert(read_line(lines[lines.len() - 1]) == Reading::Rule(rules[k]));
                lemma_words_hold_no_space(lines.last(), 0);
                lemma_distinct(found.skip(1));
            }
        }
    }
}

/// The primary maintainers are the owners of the last rule with the
/// wildcard, and there are none exactly where no rule has it.
pub proof fn lemma_primary_is_last_wildcard(rules: Seq<RuleView>)
    ensures
        primary(rules) is None <==> forall|i: int|
            0 <= i < rules.len() ==> !is_wildcard(#[trigger] rules[i].pattern),
        primary(rules) is Some ==> exists|i: int|
            {
                &&& 0 <= i < rules.len()
                &&& is_wildcard(#[trigger] rules[i].pattern)
                &&& primary(rules) == Some(rules[i].owners)
                &&& forall|j: int| i < j < rules.len() ==> !is_wildcard(#[trigger] rules[j].pattern)
            },
    decreases rules.len(),
{
    if rules.len() > 0 {
        let init = rules.drop_last();
        lemma_primary_is_last_wildcard(init);
        if is_wildcard(rules.last().pattern) {
            assert(is_wildcard(rules[rules.len() - 1].pattern));
        } else {
            assert forall|i: int| 0 <= i < init.len() implies (is_wildcard(
                #[trigger] rules[i].pattern,
            ) <==> is_wildcard(init[i].pattern)) by {}
            if primary(rules) is Some {
                let i: int = choose|i: int|
                    {
                        &&& 0 <= i < init.len()
                        &&& is_wildcard(#[trigger] init[i].pattern)
                        &&& primary(init) == Some(init[i].owners)
                        &&& forall|j: int|
                            i < j < init.len() ==> !is_wildcard(#[trigger] init[j].pattern)
                    };
                assert(is_wildcard(rules[i].pattern));
                assert forall|j: int| i < j < rules.len() implies !is_wildcard(
                    #[trigger] rules[j].pattern,
                ) by {
                    if j < init.len() {
                        assert(!is_wildcard(init[j].pattern));
                    }
                }
            } else {
                assert forall|i: int| 0 <= i < rules.len() implies !is_wildcard(
                    #[trigger] rules[i].pattern,
                ) by {
                    if i < init.len() {
                        assert(!is_wildcard(init[i].pattern));
                    }
                }
            }
        }
    }
}

/// One rule of a `CODEOWNERS` file.
#[derive(Debug, PartialEq, Eq)]
pub struct Rule {
    pattern: String,
    owners: MaintainerSet,
}

impl View for Rule {
    type V = RuleView;

    closed spec fn view(&self) -> RuleView {
        RuleView { pattern: self.pattern@, owners: self.owners@ }
    }
}

impl Rule {
    /// The pattern of paths that the rule is about.
    pub fn pattern(&self) -> (pattern: &String)
        ensures
            pattern@ == self@.pattern,
    {
        &self.pattern
    }

    /// The owners of those paths.
    pub fn owners(&self) -> (owners: &MaintainerSet)
        ensures
            owners@ == self@.owners,
    {
        &self.owners
    }

    /// Whether the rule is about every path.
    pub fn is_wildcard(&self) -> (wildcard: bool)
        ensures
            wildcard == is_wildcard(self@.pattern),
    {
        let star = String::from_str("*");
        proof {
            reveal_strlit("*");
            assert("*"@ =~= seq!['*']);
        }
        self.pattern == star
    }
}

/// The line of a `CODEOWNERS` file that could not be read.
#[derive(Debug, PartialEq, Eq)]
pub struct ParseError {
    line: usize,
    content: String,
}

impl View for ParseError {
    type V = ParseErrorView;

    closed spec fn view(&self) -> ParseErrorView {
        ParseErrorView { line: self.line as nat, content: self.content@ }
    }
}

impl ParseError {
    /// The number of the line, counted from 1.
    pub fn line(&self) -> (line: usize)
        ensures
            line == self@.line,
    {
        self.line
    }

    /// The pattern that stands alone on the line.
    pub fn content(&self) -> (content: &String)
        ensures
            content@ == self@.content,
    {
        &self.content
    }

    /// The error in words.
    pub fn message(&self) -> (message: String)
        ensures
            message@ == self@.message(),
    {
        let mut message = String::from_str("Line ");
        message.append(decimal_string(self.line).as_str());
        message.append(" gives no owners for the pattern ");
        message.append(self.content.as_str());
        message
    }
}

/// The rules of a `CODEOWNERS` file, in the order of its lines.
#[derive(Debug, PartialEq, Eq)]
pub struct CodeOwners {
    rules: Vec<Rule>,
}

impl View for CodeOwners {
    type V = Seq<RuleView>;

    closed spec fn view(&self) -> Seq<RuleView> {
        rule_views(self.rules@)
    }
}

/// The views of `rules`, in order.
pub open spec fn rule_views(rules: Seq<Rule>) -> Seq<RuleView> {
    Seq::new(rules.len(), |i: int| rules[i]@)
}

/// What the words of one line hold.
enum Line {
    Nothing,
    Rule(Rule),
    Malformed(String),
}

impl Line {
    spec fn reading(self) -> Reading {
        match self {
            Line::Nothing => Reading::Nothing,
            Line::Rule(rule) => Reading::Rule(rule@),
            Line::Malformed(content) => Reading::Malformed(content@),
        }
    }
}

/// Reads one line.
fn read(line: &str) -> (held: Line)
    ensures
        held.reading() == read_line(line@),
{
    let found = split_words(line);
    if found.len() == 0 {
        return Line::Nothing;
    }
    proof {
        lemma_words_hold_no_space(line@, 0);
    }
    if found[0].as_str().get_char(0) == '#' {
        return Line::Nothing;
    }
    if found.len() == 1 {
        return Line::Malformed(found[0].clone());
    }
    let mut owners = MaintainerSet::new();
    let mut i: usize = 1;
    while i < found.len()
        invariant
            1 <= i <= found.len(),
            owners@ == distinct(texts(found@).skip(1).take(i - 1)),
        decreases found.len() - i,
    {
        let ghost named = texts(found@).skip(1);
        assert(named.take(i as int).drop_last() == named.take(i - 1));
        owners.insert(found[i].clone());
        i += 1;
    }
    assert(texts(found@).skip(1).take(i - 1) == texts(found@).skip(1));
    Line::Rule(Rule { pattern: found[0].clone(), owners })
}

impl CodeOwners {
    /// Whether the rules are well formed, as the rules of a file are: each
    /// has a pattern and at least one owner, none named twice.
    pub open spec fn wf(&self) -> bool {
        forall|i: int| 0 <= i < self@.len() ==> rule_wf(#[trigger] self@[i])
    }

    /// Reads the file `source`. Gives its rules, or the first line that is
    /// malformed.
    pub fn new(source: &str) -> (read: Result<CodeOwners, ParseError>)
        ensures
            match parse(source@) {
                Ok(rules) => read is Ok && read->Ok_0@ == rules,
                Err(error) => read is Err && read->Err_0@ == error,
            },
            read is Ok ==> read->Ok_0.wf(),
    {
        let found = split_lines(source);
        let mut rules: Vec<Rule> = Vec::new();
        let mut i: usize = 0;
        assert(rule_views(rules@) == Seq::<RuleView>::empty());
        while i < found.len()
            invariant
                i <= found.len(),
                texts(found@) == lines(source@),
                read_lines(texts(found@).take(i as int)) == Ok::<Seq<RuleView>, ParseErrorView>(
                    rule_views(rules@),
                ),
            decreases found.len() - i,
        {
            assert(texts(found@).take(i + 1).drop_last() == texts(found@).take(i as int));
            let ghost before = rule_views(rules@);
            match read(found[i].as_str()) {
                Line::Nothing => {},
                Line::Rule(rule) => {
                    rules.push(rule);
                    assert(rule_views(rules@) == before.push(rule@));
                },
                Line::Malformed(content) => {
                    proof {
                        lemma_read_lines_error_stays(texts(found@), i + 1);
                    }
                    return Err(ParseError { line: i + 1, content });
                },
            }
            i += 1;
        }
        assert(texts(found@).take(i as int) == texts(found@));
        let read = CodeOwners { rules };
        proof {
            lemma_read_lines_rules(lines(source@));
            assert forall|k: int| 0 <= k < read@.len() implies rule_wf(#[trigger] read@[k]) by {
                assert(read@[k] == read_lines(lines(source@))->Ok_0[k]);
            }
        }
        Ok(read)
    }

    /// The rules, in the order of their lines.
    pub fn rules(&self) -> (rules: &Vec<Rule>)
        ensures
            rule_views(rules@) == self@,
    {
        &self.rules
    }

    /// The maintainers of the whole project: the owners of the last rule
    /// whose pattern is `*`. `None` where no rule has that pattern.
    pub fn primary_maintainers(&self) -> (found: Option<&MaintainerSet>)
        ensures
            match primary(self@) {
                Some(owners) => found is Some && found->Some_0@ == owners,
                None => found is None,
            },
            self.wf() && found is Some ==> found->Some_0.wf() && found->Some_0@.len() > 0,
    {
        proof {
            lemma_primary_is_last_wildcard(self@);
        }
        let mut i: usize = self.rules.len();
        assert(self@.take(i as int) == self@);
        while i > 0
            invariant
                i <= self.rules.len(),
                primary(self@) == primary(self@.take(i as int)),
            decreases i,
        {
            i -= 1;
            assert(self@.take(i + 1).drop_last() == self@.take(i as int));
            if self.rules[i].is_wildcard() {
                return Some(&self.rules[i].owners);
            }
        }
        None
    }
}

} // verus!

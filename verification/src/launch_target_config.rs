//! The launch targets of a project manifest.
use vstd::prelude::*;
use vstd::string::*;

use crate::numbers::{decimal, push_decimal};
use crate::portboard_error::{failure, refusal, ErrorText, PortboardError};
use crate::text::{
    ascii_word_character, blank, characters, contains_control, copy_optional, copy_strings,
    has_control, holds_text, is_ascii_word_character, is_blank, is_text, only, optional_text,
    pieces_at, pieces_part_at_separators, rows, same_optional, same_strings, same_text,
    split_at_each, texts,
};

verus! {

/// Stable manifest identifier for one launch target in a project.
#[derive(Debug, PartialEq, Eq, Hash)]
pub struct LaunchTargetId(pub String);

/// Command and process signature that define one project launch target.
#[derive(Debug, PartialEq, Eq)]
pub struct LaunchTarget {
    pub id: LaunchTargetId,
    pub label: String,
    pub argv: Vec<String>,
    pub process_match: Vec<String>,
    pub runtime_file: Option<String>,
    pub log_file: Option<String>,
}

/// Parsed `portboard.toml` configuration for the current Git worktree.
#[derive(Debug, PartialEq, Eq)]
pub struct PortboardConfig {
    pub version: u32,
    pub launch_targets: Vec<LaunchTarget>,
}

/// What a launch target says, as text.
pub struct TargetText {
    pub id: Seq<char>,
    pub label: Seq<char>,
    pub argv: Seq<Seq<char>>,
    pub process_match: Seq<Seq<char>>,
    pub runtime_file: Option<Seq<char>>,
    pub log_file: Option<Seq<char>>,
}

/// What a manifest says.
pub struct ConfigText {
    pub version: u32,
    pub launch_targets: Seq<TargetText>,
}

impl View for LaunchTargetId {
    type V = Seq<char>;

    open spec fn view(&self) -> Seq<char> {
        self.0@
    }
}

impl View for LaunchTarget {
    type V = TargetText;

    open spec fn view(&self) -> TargetText {
        TargetText {
            id: self.id@,
            label: self.label@,
            argv: texts(self.argv@),
            process_match: texts(self.process_match@),
            runtime_file: optional_text(self.runtime_file),
            log_file: optional_text(self.log_file),
        }
    }
}

/// What every target of a list says.
pub open spec fn target_texts(targets: Seq<LaunchTarget>) -> Seq<TargetText> {
    Seq::new(targets.len(), |i: int| targets[i]@)
}

impl View for PortboardConfig {
    type V = ConfigText;

    open spec fn view(&self) -> ConfigText {
        ConfigText {
            version: self.version,
            launch_targets: target_texts(self.launch_targets@),
        }
    }
}

impl LaunchTargetId {
    pub fn new(text: String) -> (result: Self)
        ensures
            result@ == text@,
    {
        LaunchTargetId(text)
    }

    /// Returns the launch target identifier as manifest text.
    pub fn as_str(&self) -> (result: &str)
        ensures
            result@ == self@,
    {
        self.0.as_str()
    }
}

impl Clone for LaunchTargetId {
    fn clone(&self) -> (result: Self)
        ensures
            result@ == self@,
    {
        LaunchTargetId(self.0.clone())
    }
}

impl Clone for LaunchTarget {
    fn clone(&self) -> (result: Self)
        ensures
            result@ == self@,
    {
        LaunchTarget {
            id: self.id.clone(),
            label: self.label.clone(),
            argv: copy_strings(&self.argv),
            process_match: copy_strings(&self.process_match),
            runtime_file: copy_optional(&self.runtime_file),
            log_file: copy_optional(&self.log_file),
        }
    }
}

impl LaunchTarget {
    /// Whether two targets say the same.
    pub fn says_the_same(&self, other: &LaunchTarget) -> (result: bool)
        ensures
            result == (self@ == other@),
    {
        same_text(self.id.as_str(), other.id.as_str()) && self.label == other.label && same_strings(
            &self.argv,
            &other.argv,
        ) && same_strings(&self.process_match, &other.process_match) && same_optional(
            &self.runtime_file,
            &other.runtime_file,
        ) && same_optional(&self.log_file, &other.log_file)
    }
}

impl PortboardConfig {
    /// Whether two manifests say the same.
    pub fn says_the_same(&self, other: &PortboardConfig) -> (result: bool)
        ensures
            result == (self@ == other@),
    {
        if self.version != other.version || self.launch_targets.len()
            != other.launch_targets.len() {
            proof {
                assert(self@.launch_targets.len() == self.launch_targets.len());
                assert(other@.launch_targets.len() == other.launch_targets.len());
            }
            return false;
        }
        let mut index: usize = 0;
        while index < self.launch_targets.len()
            invariant
                index <= self.launch_targets.len() == other.launch_targets.len(),
                forall|i: int|
                    0 <= i < index ==> #[trigger] self@.launch_targets[i]
                        == other@.launch_targets[i],
            decreases self.launch_targets.len() - index,
        {
            if !self.launch_targets[index].says_the_same(&other.launch_targets[index]) {
                proof {
                    assert(self@.launch_targets[index as int] != other@.launch_targets[index as int]);
                }
                return false;
            }
            index += 1;
        }
        proof {
            assert(self@.launch_targets =~= other@.launch_targets);
        }
        true
    }
}

/// An identifier of letters, digits, `-` and `_`, at least one of them.
pub open spec fn is_plain_identifier(text: Seq<char>) -> bool {
    text.len() > 0 && forall|i: int|
        0 <= i < text.len() ==> (is_ascii_word_character(#[trigger] text[i]) || text[i] == '-'
            || text[i] == '_')
}

pub fn plain_identifier(text: &str) -> (result: bool)
    ensures
        result == is_plain_identifier(text@),
{
    let source = characters(text);
    if source.len() == 0 {
        return false;
    }
    let mut index: usize = 0;
    while index < source.len()
        invariant
            index <= source.len(),
            source@ == text@,
            forall|i: int|
                0 <= i < index ==> (is_ascii_word_character(#[trigger] text@[i]) || text@[i] == '-'
                    || text@[i] == '_'),
        decreases source.len() - index,
    {
        let character = source[index];
        if !(ascii_word_character(character) || character == '-' || character == '_') {
            return false;
        }
        index += 1;
    }
    true
}

/// Whether some text of a list is blank.
pub open spec fn some_blank(list: Seq<Seq<char>>) -> bool {
    exists|i: int| 0 <= i < list.len() && is_blank(#[trigger] list[i])
}

fn holds_blank(list: &Vec<String>) -> (result: bool)
    ensures
        result == some_blank(texts(list@)),
{
    let mut index: usize = 0;
    while index < list.len()
        invariant
            index <= list.len(),
            forall|i: int| 0 <= i < index ==> !is_blank(#[trigger] texts(list@)[i]),
        decreases list.len() - index,
    {
        if blank(list[index].as_str()) {
            proof {
                assert(is_blank(texts(list@)[index as int]));
            }
            return true;
        }
        index += 1;
    }
    false
}

/// A path that names something below the worktree root: not blank, not absolute, and without
/// a parent directory among its components.
pub open spec fn is_worktree_relative(path: Seq<char>) -> bool {
    &&& !is_blank(path)
    &&& path[0] != '/'
    &&& !pieces_at(path, '/').contains(seq!['.', '.'])
}

/// Why a path field of a target is refused.
pub open spec fn relative_file_refusal(
    id: Seq<char>,
    field: Seq<char>,
    value: Option<Seq<char>>,
) -> Option<ErrorText> {
    match value {
        Some(path) => if is_worktree_relative(path) {
            None
        } else {
            Some(
                failure(
                    "Portboard launch target `"@ + id + "` "@ + field
                        + " must be a relative path inside the worktree"@,
                ),
            )
        },
        None => None,
    }
}

/// Accepts only paths that stay inside the worktree.
pub fn validate_worktree_relative_file(id: &str, field: &str, value: &Option<String>) -> (result:
    Result<(), PortboardError>)
    ensures
        refusal(result) == relative_file_refusal(id@, field@, optional_text(*value)),
{
    match value {
        None => Ok(()),
        Some(path) => {
            let source = characters(path.as_str());
            let all = split_at_each(source.as_slice(), '/');
            let mut parent = false;
            let mut index: usize = 0;
            proof {
                reveal_strlit("..");
                assert(".."@ =~= seq!['.', '.']);
            }
            while index < all.len()
                invariant
                    index <= all.len(),
                    rows(all@) == pieces_at(path@, '/'),
                    ".."@ == seq!['.', '.'],
                    parent == exists|i: int|
                        0 <= i < index && #[trigger] rows(all@)[i] == seq!['.', '.'],
                decreases all.len() - index,
            {
                if is_text(all[index].as_slice(), "..") {
                    parent = true;
                    proof {
                        assert(rows(all@)[index as int] == seq!['.', '.']);
                    }
                }
                index += 1;
            }
            proof {
                assert(parent == rows(all@).contains(seq!['.', '.']));
                if source.len() == 0 {
                    assert(is_blank(path@));
                }
            }
            if blank(path.as_str()) || source[0] == '/' || parent {
                let mut message = "Portboard launch target `".to_owned();
                message.append(id);
                message.append("` ");
                message.append(field);
                message.append(" must be a relative path inside the worktree");
                Err(PortboardError::new(message))
            } else {
                Ok(())
            }
        },
    }
}

/// A message about one launch target.
pub open spec fn about_target(id: Seq<char>, rest: Seq<char>) -> ErrorText {
    failure("Portboard launch target `"@ + id + rest)
}

/// Why a target is refused by itself: the first of its faults.
pub open spec fn target_refusal(target: TargetText) -> Option<ErrorText> {
    if !is_plain_identifier(target.id) {
        Some(
            failure(
                "Portboard launch target id `"@ + target.id
                    + "` must contain only letters, numbers, `-`, or `_`"@,
            ),
        )
    } else if is_blank(target.label) {
        Some(about_target(target.id, "` needs a non-empty label"@))
    } else if has_control(target.label) {
        Some(about_target(target.id, "` label cannot contain control characters"@))
    } else if target.argv.len() == 0 || some_blank(target.argv) {
        Some(about_target(target.id, "` needs a non-empty argv command"@))
    } else if some_blank(target.process_match) {
        Some(about_target(target.id, "` has an empty process_match value"@))
    } else if relative_file_refusal(target.id, "runtime_file"@, target.runtime_file) is Some {
        relative_file_refusal(target.id, "runtime_file"@, target.runtime_file)
    } else {
        relative_file_refusal(target.id, "log_file"@, target.log_file)
    }
}

fn target_error(id: &str, rest: &str) -> (result: PortboardError)
    ensures
        result@ == about_target(id@, rest@),
{
    let mut message = "Portboard launch target `".to_owned();
    message.append(id);
    message.append(rest);
    PortboardError::new(message)
}

/// Checks one launch target by itself.
pub fn validate_launch_target(target: &LaunchTarget) -> (result: Result<(), PortboardError>)
    ensures
        refusal(result) == target_refusal(target@),
{
    let id = target.id.as_str();
    if !plain_identifier(id) {
        let mut message = "Portboard launch target id `".to_owned();
        message.append(id);
        message.append("` must contain only letters, numbers, `-`, or `_`");
        return Err(PortboardError::new(message));
    }
    if blank(target.label.as_str()) {
        return Err(target_error(id, "` needs a non-empty label"));
    }
    if contains_control(target.label.as_str()) {
        return Err(target_error(id, "` label cannot contain control characters"));
    }
    if target.argv.len() == 0 || holds_blank(&target.argv) {
        return Err(target_error(id, "` needs a non-empty argv command"));
    }
    if holds_blank(&target.process_match) {
        return Err(target_error(id, "` has an empty process_match value"));
    }
    match validate_worktree_relative_file(id, "runtime_file", &target.runtime_file) {
        Err(error) => Err(error),
        Ok(_) => validate_worktree_relative_file(id, "log_file", &target.log_file),
    }
}

/// The identifiers of a list of targets.
pub open spec fn target_ids(targets: Seq<TargetText>) -> Seq<Seq<char>> {
    Seq::new(targets.len(), |i: int| targets[i].id)
}

/// Why the first `count` targets are refused: the first fault of the first faulty one, where an
/// identifier that stands on an earlier target counts behind the target's own faults.
pub open spec fn targets_refusal(targets: Seq<TargetText>, count: int) -> Option<ErrorText>
    decreases count,
{
    if count <= 0 {
        None
    } else if targets_refusal(targets, count - 1) is Some {
        targets_refusal(targets, count - 1)
    } else if target_refusal(targets[count - 1]) is Some {
        target_refusal(targets[count - 1])
    } else if target_ids(targets).take(count - 1).contains(targets[count - 1].id) {
        Some(
            failure(
                "Portboard manifest has duplicate launch target id `"@ + targets[count - 1].id
                    + "`"@,
            ),
        )
    } else {
        None
    }
}

/// Why a manifest is refused.
pub open spec fn config_refusal(config: ConfigText) -> Option<ErrorText> {
    if config.version != 1 {
        Some(
            failure(
                "Portboard manifest version "@ + decimal(config.version as nat)
                    + " is unsupported; expected version 1"@,
            ),
        )
    } else {
        targets_refusal(config.launch_targets, config.launch_targets.len() as int)
    }
}

/// Checks a parsed manifest: its version, each target, and that no identifier occurs twice.
pub fn validate_launch_target_config(config: &PortboardConfig) -> (result: Result<
    (),
    PortboardError,
>)
    ensures
        refusal(result) == config_refusal(config@),
{
    if config.version != 1 {
        let mut message = "Portboard manifest version ".to_owned();
        push_decimal(&mut message, config.version as u64);
        message.append(" is unsupported; expected version 1");
        return Err(PortboardError::new(message));
    }
    let targets = &config.launch_targets;
    let ghost said = config@.launch_targets;
    let mut seen: Vec<String> = Vec::new();
    let mut index: usize = 0;
    proof {
        assert(texts(seen@) =~= target_ids(said).take(0));
    }
    while index < targets.len()
        invariant
            index <= targets.len(),
            targets == &config.launch_targets,
            config.version == 1,
            said == config@.launch_targets,
            said.len() == targets.len(),
            targets_refusal(said, index as int) is None,
            texts(seen@) == target_ids(said).take(index as int),
        decreases targets.len() - index,
    {
        let target = &targets[index];
        proof {
            assert(said[index as int] == target@);
        }
        match validate_launch_target(target) {
            Err(error) => {
                proof {
                    lemma_refusal_stays(said, index + 1, said.len() as int);
                }
                return Err(error);
            },
            Ok(_) => {},
        }
        if holds_text(&seen, target.id.as_str()) {
            let mut message = "Portboard manifest has duplicate launch target id `".to_owned();
            message.append(target.id.as_str());
            message.append("`");
            proof {
                lemma_refusal_stays(said, index + 1, said.len() as int);
            }
            return Err(PortboardError::new(message));
        }
        let ghost before = texts(seen@);
        seen.push(target.id.as_str().to_owned());
        index += 1;
        proof {
            assert(texts(seen@) =~= before.push(target.id@));
            assert(target_ids(said).take(index as int) =~= before.push(target.id@));
        }
    }
    Ok(())
}

proof fn lemma_refusal_stays(targets: Seq<TargetText>, few: int, many: int)
    requires
        0 <= few <= many,
        targets_refusal(targets, few) is Some,
    ensures
        targets_refusal(targets, many) == targets_refusal(targets, few),
    decreases many - few,
{
    if few < many {
        lemma_refusal_stays(targets, few, many - 1);
    }
}

/// Where the first target with an identifier stands; the number of targets where none does.
pub open spec fn target_index(targets: Seq<TargetText>, id: Seq<char>) -> int {
    crate::text::first_index(target_ids(targets), id, 0)
}

/// The message that no target has an identifier.
pub open spec fn not_configured(id: Seq<char>) -> ErrorText {
    failure("Portboard launch target `"@ + id + "` is not configured"@)
}

/// The first target with an identifier.
pub open spec fn found_target(targets: Seq<TargetText>, id: Seq<char>) -> Result<
    TargetText,
    ErrorText,
> {
    let at = target_index(targets, id);
    if at < targets.len() {
        Ok(targets[at])
    } else {
        Err(not_configured(id))
    }
}

/// What a lookup of a target gave, as text.
pub open spec fn lookup_text(result: Result<&LaunchTarget, PortboardError>) -> Result<
    TargetText,
    ErrorText,
> {
    match result {
        Ok(target) => Ok(target@),
        Err(error) => Err(error@),
    }
}

/// Looks a launch target up by its identifier.
pub fn configured_target<'a>(targets: &'a Vec<LaunchTarget>, target_id: &str) -> (result: Result<
    &'a LaunchTarget,
    PortboardError,
>)
    ensures
        lookup_text(result) == found_target(target_texts(targets@), target_id@),
{
    let ghost ids = target_ids(target_texts(targets@));
    let mut index: usize = 0;
    while index < targets.len()
        invariant
            index <= targets.len(),
            ids == target_ids(target_texts(targets@)),
            ids.len() == targets.len(),
            crate::text::first_index(ids, target_id@, 0) == crate::text::first_index(
                ids,
                target_id@,
                index as int,
            ),
        decreases targets.len() - index,
    {
        proof {
            assert(ids[index as int] == targets@[index as int].id@);
        }
        if same_text(targets[index].id.as_str(), target_id) {
            return Ok(&targets[index]);
        }
        index += 1;
    }
    let mut message = "Portboard launch target `".to_owned();
    message.append(target_id);
    message.append("` is not configured");
    Err(PortboardError::new(message))
}

/// Every target of an accepted manifest is acceptable by itself, and no identifier occurs twice.
pub proof fn accepted_manifest(config: ConfigText)
    requires
        config_refusal(config) is None,
    ensures
        config.version == 1,
        forall|i: int|
            0 <= i < config.launch_targets.len() ==> target_refusal(
                #[trigger] config.launch_targets[i],
            ) is None,
        target_ids(config.launch_targets).no_duplicates(),
{
    let targets = config.launch_targets;
    lemma_no_refusal(targets, targets.len() as int);
    assert forall|i: int, j: int|
        0 <= i < targets.len() && 0 <= j < targets.len() && i != j implies target_ids(targets)[i]
        != target_ids(targets)[j] by {
        let low = if i < j { i } else { j };
        let high = if i < j { j } else { i };
        if target_ids(targets)[i] == target_ids(targets)[j] {
            assert(target_ids(targets).take(high)[low] == targets[high].id);
        }
    }
}

proof fn lemma_no_refusal(targets: Seq<TargetText>, count: int)
    requires
        0 <= count <= targets.len(),
        targets_refusal(targets, count) is None,
    ensures
        forall|i: int|
            0 <= i < count ==> target_refusal(#[trigger] targets[i]) is None && !target_ids(
                targets,
            ).take(i).contains(targets[i].id),
    decreases count,
{
    if count > 0 {
        lemma_no_refusal(targets, count - 1);
    }
}

/// A manifest whose targets are each acceptable, with no identifier twice, is accepted.
pub proof fn faultless_manifest(config: ConfigText)
    requires
        config.version == 1,
        forall|i: int|
            0 <= i < config.launch_targets.len() ==> target_refusal(
                #[trigger] config.launch_targets[i],
            ) is None,
        target_ids(config.launch_targets).no_duplicates(),
    ensures
        config_refusal(config) is None,
{
    lemma_faultless(config.launch_targets, config.launch_targets.len() as int);
}

proof fn lemma_faultless(targets: Seq<TargetText>, count: int)
    requires
        0 <= count <= targets.len(),
        forall|i: int|
            0 <= i < targets.len() ==> target_refusal(#[trigger] targets[i]) is None,
        target_ids(targets).no_duplicates(),
    ensures
        targets_refusal(targets, count) is None,
    decreases count,
{
    if count > 0 {
        lemma_faultless(targets, count - 1);
        let ids = target_ids(targets);
        if ids.take(count - 1).contains(targets[count - 1].id) {
            let i = choose|i: int|
                0 <= i < count - 1 && #[trigger] ids.take(count - 1)[i] == targets[count - 1].id;
            assert(ids[i] == ids[count - 1]);
        }
    }
}

/// ASCII letters and digits, the dash and the underscore.
pub open spec fn is_name_character(character: char) -> bool {
    ||| 0x30 <= character as int <= 0x39
    ||| 0x41 <= character as int <= 0x5A
    ||| 0x61 <= character as int <= 0x7A
    ||| character == '-'
    ||| character == '_'
}

/// Whether a name is made of name characters, one at least.
pub open spec fn is_made_of_name_characters(text: Seq<char>) -> bool {
    text.len() > 0 && forall|i: int| 0 <= i < text.len() ==> is_name_character(#[trigger] text[i])
}

proof fn lemma_name_character(character: char)
    ensures
        is_name_character(character) <==> is_ascii_word_character(character) || character == '-'
            || character == '_',
{
}

/// A target is accepted exactly where its id is made of name characters, its label says something
/// that a terminal can show, its command has words that all say something, its process match has
/// no blank entry, and its files lie in the worktree.
pub proof fn targets_are_accepted_where_they_are_sound(target: TargetText)
    ensures
        target_refusal(target) is None <==> is_made_of_name_characters(target.id) && !is_blank(
            target.label,
        ) && !has_control(target.label) && target.argv.len() > 0 && (forall|i: int|
            0 <= i < target.argv.len() ==> !is_blank(#[trigger] target.argv[i])) && (forall|i: int|
            0 <= i < target.process_match.len() ==> !is_blank(#[trigger] target.process_match[i]))
            && (target.runtime_file matches Some(path) ==> is_worktree_relative(path)) && (
        target.log_file matches Some(path) ==> is_worktree_relative(path)),
{
    let id = target.id;
    assert forall|i: int| 0 <= i < id.len() implies (is_name_character(#[trigger] id[i]) <==> (
    is_ascii_word_character(id[i]) || id[i] == '-' || id[i] == '_')) by {
        lemma_name_character(id[i]);
    }
    if is_plain_identifier(id) {
        assert forall|i: int| 0 <= i < id.len() implies is_name_character(#[trigger] id[i]) by {}
    }
    if is_made_of_name_characters(id) {
        assert forall|i: int| 0 <= i < id.len() implies (is_ascii_word_character(#[trigger] id[i])
            || id[i] == '-' || id[i] == '_') by {
            assert(is_name_character(id[i]));
        }
    }
}

/// A path names a file in the worktree exactly where it says something, does not begin at the
/// root and none of its steps leads upwards.
pub proof fn worktree_files_never_lead_upwards(path: Seq<char>, left: Seq<char>, right: Seq<char>)
    requires
        is_worktree_relative(path),
    ensures
        !is_blank(path),
        path[0] != '/',
        path != "/"@ + right,
        path != ".."@,
        path != "../"@ + right,
        path != left + "/../"@ + right,
        path != left + "/.."@,
{
    let up = seq!['.', '.'];
    reveal_strlit("/");
    reveal_strlit("..");
    reveal_strlit("../");
    reveal_strlit("/../");
    reveal_strlit("/..");
    assert(".."@ =~= up);
    pieces_part_at_separators(up, '/', right, only('/'));
    assert(pieces_at(up, '/') =~= seq![up]) by {
        assert forall|i: int| 0 <= i < up.len() implies !only('/')(#[trigger] up[i]) by {}
    }
    assert(pieces_at(up, '/')[0] == up);
    let behind = up + seq!['/'] + right;
    let ahead = pieces_at(behind, '/');
    assert(ahead == seq![up] + pieces_at(right, '/'));
    assert(ahead[0] == up);
    assert("../"@ + right =~= behind);
    pieces_part_at_separators(left, '/', behind, only('/'));
    let before = pieces_at(left, '/');
    assert(left + "/../"@ + right =~= left + seq!['/'] + behind);
    assert((before + ahead)[before.len() as int] == up);
    pieces_part_at_separators(left, '/', up, only('/'));
    assert(left + "/.."@ =~= left + seq!['/'] + up);
    assert((before + seq![up])[before.len() as int] == up);
}

/// A manifest is accepted exactly where it is of the first version, each of its targets is, and
/// no two of them have the same id.
pub proof fn manifests_are_accepted_where_they_are_sound(config: ConfigText)
    ensures
        config_refusal(config) is None <==> config.version == 1 && (forall|i: int|
            0 <= i < config.launch_targets.len() ==> target_refusal(
                #[trigger] config.launch_targets[i],
            ) is None) && (forall|i: int, j: int|
            0 <= i < j < config.launch_targets.len() ==> (#[trigger] config.launch_targets[i]).id
                != (#[trigger] config.launch_targets[j]).id),
{
    let targets = config.launch_targets;
    if config_refusal(config) is None {
        accepted_manifest(config);
        assert forall|i: int, j: int| 0 <= i < j < targets.len() implies (#[trigger] targets[i]).id
            != (#[trigger] targets[j]).id by {
            assert(target_ids(targets)[i] != target_ids(targets)[j]);
        }
    }
    if config.version == 1 && (forall|i: int|
        0 <= i < targets.len() ==> target_refusal(#[trigger] targets[i]) is None) && (forall|
        i: int,
        j: int,
    |
        0 <= i < j < targets.len() ==> (#[trigger] targets[i]).id != (#[trigger] targets[j]).id) {
        assert forall|i: int, j: int|
            0 <= i < targets.len() && 0 <= j < targets.len() && i != j implies target_ids(
            targets,
        )[i] != target_ids(targets)[j] by {
            let low = if i < j { i } else { j };
            let high = if i < j { j } else { i };
            assert(targets[low].id != targets[high].id);
        }
        faultless_manifest(config);
    }
}

/// A target is found by its id: the first one that has it, and it is not configured only where
/// none does.
pub proof fn targets_are_found_by_id(targets: Seq<TargetText>, id: Seq<char>)
    ensures
        match found_target(targets, id) {
            Ok(target) => target.id == id && exists|i: int|
                0 <= i < targets.len() && #[trigger] targets[i] == target && forall|j: int|
                    0 <= j < i ==> (#[trigger] targets[j]).id != id,
            Err(_) => forall|i: int| 0 <= i < targets.len() ==> (#[trigger] targets[i]).id != id,
        },
{
    let ids = target_ids(targets);
    crate::text::lemma_first_index_bounds(ids, id, 0);
    let at = target_index(targets, id);
    if at < targets.len() {
        assert(ids[at] == id);
        assert(targets[at] == targets[at]);
        assert forall|j: int| 0 <= j < at implies (#[trigger] targets[j]).id != id by {
            assert(ids[j] != id);
        }
    } else {
        assert forall|i: int| 0 <= i < targets.len() implies (#[trigger] targets[i]).id != id by {
            assert(ids[i] != id);
        }
    }
}

/// A path names a file in the worktree wherever it says something, does not begin at the root and
/// has no step that leads upwards; steps that stay where they are do no harm.
pub proof fn inner_paths_are_accepted(path: Seq<char>)
    requires
        !is_blank(path),
        path[0] != '/',
        forall|i: int|
            0 <= i < pieces_at(path, '/').len() ==> #[trigger] pieces_at(path, '/')[i] != ".."@,
    ensures
        is_worktree_relative(path),
{
    reveal_strlit("..");
    assert(".."@ =~= seq!['.', '.']);
    let all = pieces_at(path, '/');
    if all.contains(seq!['.', '.']) {
        let at = choose|at: int| 0 <= at < all.len() && all[at] == seq!['.', '.'];
        assert(all[at] != ".."@);
    }
}

} // verus!

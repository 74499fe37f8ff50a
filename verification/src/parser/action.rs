//! Action documents: three message bodies, for the goal, the result and
//! the feedback, with a separator line between two of them.

use crate::error::ParseError;
use crate::message::{ActionSpec, ActionSpecView};
use crate::parser::block::{part_views, pattern_split, split_at_pattern, SEPARATOR_LINE};
use crate::parser::msg::{
    lemma_message_failures,
    lemma_message_is_well_formed,
    message_match,
    parse_message_string,
};
use vstd::prelude::*;
use vstd::string::*;

verus! {

/// What the name of an action's goal message ends with.
pub const ACTION_GOAL_SUFFIX: &'static str = "_Goal";

/// What the name of an action's result message ends with.
pub const ACTION_RESULT_SUFFIX: &'static str = "_Result";

/// What the name of an action's feedback message ends with.
pub const ACTION_FEEDBACK_SUFFIX: &'static str = "_Feedback";

/// The number of blocks of an action document.
pub const ACTION_BLOCKS: usize = 3;

/// The action `name` of `package` whose document has the blocks `blocks`:
/// the messages that the three blocks describe, named after the action, or
/// the failure of the first of them that fails.  Any other number of blocks
/// is a failure.
pub open spec fn action_match(package: Seq<char>, name: Seq<char>, blocks: Seq<Seq<char>>)
    -> Result<ActionSpecView, ParseError> {
    if blocks.len() != ACTION_BLOCKS {
        Err(
            ParseError::InvalidActionSpecification {
                wanted: ACTION_BLOCKS,
                found: blocks.len() as usize,
            },
        )
    } else {
        match message_match(package, name + ACTION_GOAL_SUFFIX@, blocks[0]) {
            Err(e) => Err(e),
            Ok(goal) => match message_match(package, name + ACTION_RESULT_SUFFIX@, blocks[1]) {
                Err(e) => Err(e),
                Ok(result) => match message_match(
                    package,
                    name + ACTION_FEEDBACK_SUFFIX@,
                    blocks[2],
                ) {
                    Err(e) => Err(e),
                    Ok(feedback) => Ok(ActionSpecView { package, name, goal, result, feedback }),
                },
            },
        }
    }
}

/// The action `name` of `package` that the document `text` describes.
pub open spec fn action_document(package: Seq<char>, name: Seq<char>, text: Seq<char>) -> Result<
    ActionSpecView,
    ParseError,
> {
    match pattern_split(SEPARATOR_LINE@, text) {
        None => Err(ParseError::InvalidSeparator),
        Some(blocks) => action_match(package, name, blocks),
    }
}

/// An action document is refused for the number of its blocks exactly
/// where they are not three.  Where it is read, the three messages belong
/// to the package of the action, are named after it and are well formed.
pub proof fn lemma_action_blocks(package: Seq<char>, name: Seq<char>, blocks: Seq<Seq<char>>)
    ensures
        blocks.len() != ACTION_BLOCKS <==> action_match(package, name, blocks) matches Err(
            ParseError::InvalidActionSpecification { .. },
        ),
        blocks.len() != ACTION_BLOCKS ==> action_match(package, name, blocks) == Err::<
            ActionSpecView,
            ParseError,
        >(
            (ParseError::InvalidActionSpecification {
                wanted: ACTION_BLOCKS,
                found: blocks.len() as usize,
            }),
        ),
        (action_match(package, name, blocks) matches Ok(action) ==> {
            &&& action.package == package
            &&& action.name == name
            &&& action.goal.package == package
            &&& action.result.package == package
            &&& action.feedback.package == package
            &&& action.goal.name == name + ACTION_GOAL_SUFFIX@
            &&& action.result.name == name + ACTION_RESULT_SUFFIX@
            &&& action.feedback.name == name + ACTION_FEEDBACK_SUFFIX@
            &&& action.wf()
        }),
{
    if blocks.len() == ACTION_BLOCKS {
        lemma_message_failures(package, name + ACTION_GOAL_SUFFIX@, blocks[0]);
        lemma_message_failures(package, name + ACTION_RESULT_SUFFIX@, blocks[1]);
        lemma_message_failures(package, name + ACTION_FEEDBACK_SUFFIX@, blocks[2]);
        lemma_message_is_well_formed(package, name + ACTION_GOAL_SUFFIX@, blocks[0]);
        lemma_message_is_well_formed(package, name + ACTION_RESULT_SUFFIX@, blocks[1]);
        lemma_message_is_well_formed(package, name + ACTION_FEEDBACK_SUFFIX@, blocks[2]);
    }
}

/// `name` with `suffix` behind it.
pub fn with_suffix(name: &str, suffix: &str) -> (r: String)
    ensures
        r@ == name@ + suffix@,
{
    let mut r = name.to_owned();
    r.append(suffix);
    r
}

/// Reads the action `action_name` of the package `pkg_name` from the
/// blocks of its document.  There must be three of them: the goal, the
/// result and the feedback, whose messages are named `<action>_Goal`,
/// `<action>_Result` and `<action>_Feedback`.
pub fn action_from_blocks(pkg_name: &str, action_name: &str, blocks: &Vec<&str>) -> (r: Result<
    ActionSpec,
    ParseError,
>)
    ensures
        (match r {
            Ok(a) => action_match(pkg_name@, action_name@, part_views(blocks@)) == Ok::<
                ActionSpecView,
                ParseError,
            >(a@),
            Err(e) => action_match(pkg_name@, action_name@, part_views(blocks@)) == Err::<
                ActionSpecView,
                ParseError,
            >(e),
        }),
        r matches Ok(a) ==> a@.wf(),
{
    proof {
        lemma_action_blocks(pkg_name@, action_name@, part_views(blocks@));
    }
    if blocks.len() != ACTION_BLOCKS {
        return Err(
            ParseError::InvalidActionSpecification { wanted: ACTION_BLOCKS, found: blocks.len() },
        );
    }
    let goal = match parse_message_string(
        pkg_name,
        with_suffix(action_name, ACTION_GOAL_SUFFIX).as_str(),
        blocks[0],
    ) {
        Ok(m) => m,
        Err(e) => {
            return Err(e);
        },
    };
    let result = match parse_message_string(
        pkg_name,
        with_suffix(action_name, ACTION_RESULT_SUFFIX).as_str(),
        blocks[1],
    ) {
        Ok(m) => m,
        Err(e) => {
            return Err(e);
        },
    };
    let feedback = match parse_message_string(
        pkg_name,
        with_suffix(action_name, ACTION_FEEDBACK_SUFFIX).as_str(),
        blocks[2],
    ) {
        Ok(m) => m,
        Err(e) => {
            return Err(e);
        },
    };
    Ok(
        ActionSpec {
            package: pkg_name.to_owned(),
            name: action_name.to_owned(),
            goal,
            result,
            feedback,
        },
    )
}

/// Reads the action `action_name` of the package `pkg_name` from its
/// document: splits it at the separator lines and reads the blocks.
pub fn parse_action_string(pkg_name: &str, action_name: &str, action_string: &str) -> (r: Result<
    ActionSpec,
    ParseError,
>)
    ensures
        (match r {
            Ok(a) => action_document(pkg_name@, action_name@, action_string@) == Ok::<
                ActionSpecView,
                ParseError,
            >(a@),
            Err(e) => action_document(pkg_name@, action_name@, action_string@) == Err::<
                ActionSpecView,
                ParseError,
            >(e),
        }),
        r matches Ok(a) ==> a@.wf(),
{
    match split_at_pattern(SEPARATOR_LINE, action_string) {
        None => Err(ParseError::InvalidSeparator),
        Some(blocks) => action_from_blocks(pkg_name, action_name, &blocks),
    }
}

} // verus!

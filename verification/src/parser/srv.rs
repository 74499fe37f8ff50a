//! Service documents: two message bodies, for the request and the
//! response, with a separator line between them.

use crate::error::ParseError;
use crate::message::{SrvSpec, SrvSpecView};
use crate::parser::action::with_suffix;
use crate::parser::block::{part_views, pattern_split, split_at_pattern, SEPARATOR_LINE};
use crate::parser::msg::{
    lemma_message_failures,
    lemma_message_is_well_formed,
    message_match,
    parse_message_string,
};
use vstd::prelude::*;
use vstd::string::*;

verus! {

/// What the name of a service's request message ends with.
pub const SERVICE_REQUEST_SUFFIX: &'static str = "_Request";

/// What the name of a service's response message ends with.
pub const SERVICE_RESPONSE_SUFFIX: &'static str = "_Response";

/// The number of blocks of a service document.
pub const SERVICE_BLOCKS: usize = 2;

/// The service `name` of `package` whose document has the blocks `blocks`:
/// the messages that the two blocks describe, named after the service, or
/// the failure of the first of them that fails.  Any other number of blocks
/// is a failure.
pub open spec fn service_match(package: Seq<char>, name: Seq<char>, blocks: Seq<Seq<char>>)
    -> Result<SrvSpecView, ParseError> {
    if blocks.len() != SERVICE_BLOCKS {
        Err(
            ParseError::InvalidServiceSpecification {
                wanted: SERVICE_BLOCKS,
                found: blocks.len() as usize,
            },
        )
    } else {
        match message_match(package, name + SERVICE_REQUEST_SUFFIX@, blocks[0]) {
            Err(e) => Err(e),
            Ok(request) => match message_match(
                package,
                name + SERVICE_RESPONSE_SUFFIX@,
                blocks[1],
            ) {
                Err(e) => Err(e),
                Ok(response) => Ok(SrvSpecView { package, name, request, response }),
            },
        }
    }
}

/// The service `name` of `package` that the document `text` describes.
pub open spec fn service_document(package: Seq<char>, name: Seq<char>, text: Seq<char>) -> Result<
    SrvSpecView,
    ParseError,
> {
    match pattern_split(SEPARATOR_LINE@, text) {
        None => Err(ParseError::InvalidSeparator),
        Some(blocks) => service_match(package, name, blocks),
    }
}

/// A service document is refused for the number of its blocks exactly
/// where they are not two.  Where it is read, the two messages belong to
/// the package of the service, are named after it and are well formed.
pub proof fn lemma_service_blocks(package: Seq<char>, name: Seq<char>, blocks: Seq<Seq<char>>)
    ensures
        blocks.len() != SERVICE_BLOCKS <==> service_match(package, name, blocks) matches Err(
            ParseError::InvalidServiceSpecification { .. },
        ),
        blocks.len() != SERVICE_BLOCKS ==> service_match(package, name, blocks) == Err::<
            SrvSpecView,
            ParseError,
        >(
            (ParseError::InvalidServiceSpecification {
                wanted: SERVICE_BLOCKS,
                found: blocks.len() as usize,
            }),
        ),
        (service_match(package, name, blocks) matches Ok(service) ==> {
            &&& service.package == package
            &&& service.name == name
            &&& service.request.package == package
            &&& service.response.package == package
            &&& service.request.name == name + SERVICE_REQUEST_SUFFIX@
            &&& service.response.name == name + SERVICE_RESPONSE_SUFFIX@
            &&& service.wf()
        }),
{
    if blocks.len() == SERVICE_BLOCKS {
        lemma_message_failures(package, name + SERVICE_REQUEST_SUFFIX@, blocks[0]);
        lemma_message_failures(package, name + SERVICE_RESPONSE_SUFFIX@, blocks[1]);
        lemma_message_is_well_formed(package, name + SERVICE_REQUEST_SUFFIX@, blocks[0]);
        lemma_message_is_well_formed(package, name + SERVICE_RESPONSE_SUFFIX@, blocks[1]);
    }
}

/// Reads the service `service_name` of the package `pkg_name` from the
/// blocks of its document.  There must be two of them: the request and the
/// response, whose messages are named `<service>_Request` and
/// `<service>_Response`.
pub fn service_from_blocks(pkg_name: &str, service_name: &str, blocks: &Vec<&str>) -> (r: Result<
    SrvSpec,
    ParseError,
>)
    ensures
        (match r {
            Ok(s) => service_match(pkg_name@, service_name@, part_views(blocks@)) == Ok::<
                SrvSpecView,
                ParseError,
            >(s@),
            Err(e) => service_match(pkg_name@, service_name@, part_views(blocks@)) == Err::<
                SrvSpecView,
                ParseError,
            >(e),
        }),
        r matches Ok(s) ==> s@.wf(),
{
    proof {
        lemma_service_blocks(pkg_name@, service_name@, part_views(blocks@));
    }
    if blocks.len() != SERVICE_BLOCKS {
        return Err(
            ParseError::InvalidServiceSpecification {
                wanted: SERVICE_BLOCKS,
                found: blocks.len(),
            },
        );
    }
    let request = match parse_message_string(
        pkg_name,
        with_suffix(service_name, SERVICE_REQUEST_SUFFIX).as_str(),
        blocks[0],
    ) {
        Ok(m) => m,
        Err(e) => {
            return Err(e);
        },
    };
    let response = match parse_message_string(
        pkg_name,
        with_suffix(service_name, SERVICE_RESPONSE_SUFFIX).as_str(),
        blocks[1],
    ) {
        Ok(m) => m,
        Err(e) => {
            return Err(e);
        },
    };
    Ok(
        SrvSpec {
            package: pkg_name.to_owned(),
            name: service_name.to_owned(),
            request,
            response,
        },
    )
}

/// Reads the service `service_name` of the package `pkg_name` from its
/// document: splits it at the separator lines and reads the blocks.
pub fn parse_service_string(pkg_name: &str, service_name: &str, service_string: &str) -> (r:
    Result<SrvSpec, ParseError>)
    ensures
        (match r {
            Ok(s) => service_document(pkg_name@, service_name@, service_string@) == Ok::<
                SrvSpecView,
                ParseError,
            >(s@),
            Err(e) => service_document(pkg_name@, service_name@, service_string@) == Err::<
                SrvSpecView,
                ParseError,
            >(e),
        }),
        r matches Ok(s) ==> s@.wf(),
{
    match split_at_pattern(SEPARATOR_LINE, service_string) {
        None => Err(ParseError::InvalidSeparator),
        Some(blocks) => service_from_blocks(pkg_name, service_name, &blocks),
    }
}

} // verus!

//! Makes the handler of an extension from the name that a handshake gives.

use crate::extensions::magnet_links::metadata_msg::MetadataRequester;
use crate::extensions::{metadata_name, ExtensionType};
use vstd::prelude::*;

verus! {

/// Makes the handlers of the extensions that this client knows.
pub struct ExtensionFactory;

impl ExtensionFactory {
    /// The handler of the extension with the name `name`: there is one for
    /// `ut_metadata`, and for no other name.
    pub fn build(name: &[u8]) -> (handler: Option<MetadataRequester>)
        ensures
            handler is Some <==> name@ == metadata_name(),
    {
        match ExtensionType::from_name(name) {
            Some(ExtensionType::Metadata) => Some(MetadataRequester::new()),
            _ => None,
        }
    }
}

} // verus!

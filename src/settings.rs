//! The configuration of the chat reader.
use vstd::prelude::*;

use crate::operation::{
    convert_operations, refusal, route_built, route_ok, routed_operation, url_parts,
    OperationRoute, VstcError,
};

verus! {

/// What the chat reader is configured with.
pub struct Settings {
    pub client_id: String,
    pub client_secret: String,
    pub channel: String,
    pub username: String,
    pub speech_address: String,
    pub operations: Vec<String>,
    pub listen_address: String,
    pub greeting_template: String,
    pub db_dir: String,
    pub db_name: String,
    pub translate_command: String,
}

impl Settings {
    /// The routes of the configured operations, checked once, as a whole:
    /// the first routing string that names no operation is a configuration
    /// error.
    pub fn routes(&self) -> (r: Result<Vec<OperationRoute>, VstcError>)
        ensures
            r is Ok <==> forall|i: int|
                0 <= i < self.operations@.len() ==> route_ok(#[trigger] self.operations@[i]@),
            r matches Ok(v) ==> v@.len() == self.operations@.len() && forall|i: int|
                0 <= i < self.operations@.len() ==> route_built(
                    #[trigger] v@[i],
                    routed_operation(self.operations@[i]@),
                    url_parts(self.operations@[i]@)->0,
                ),
            r matches Err(e) ==> exists|i: int|
                0 <= i < self.operations@.len() && (forall|j: int|
                    0 <= j < i ==> route_ok(#[trigger] self.operations@[j]@)) && !route_ok(
                    self.operations@[i]@,
                ) && refusal(e, self.operations@[i]@),
    {
        convert_operations(&self.operations)
    }
}

} // verus!

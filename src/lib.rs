//! Intermediate representation and wire codec for capability-addressed programs:
//! scalars, references and operation definitions, their JSON dialect, the
//! directory router that dispatches requests to handlers, and the transaction
//! header with its capability claim.

pub mod codec;
mod decode;
pub mod dir;
mod encode;
mod error;
mod handler;
mod ident;
mod json;
pub mod library;
mod map;
pub mod number;
mod scalar;
pub mod subject;
mod text;
pub mod txn;
pub mod walk;

pub use decode::{decode_opdef, decode_scalar, decode_tcref};
pub use dir::{parse_route_path, Dir, DirEntry};
pub use encode::{encode_opdef, encode_opref, encode_scalar, encode_tcref, encode_value};
pub use error::{Error, ErrorKind};
pub use handler::Method;
pub use ident::{id_ok, id_ref_form, id_ref_text, id_wf, link_ok, link_text_safe, link_valid, Id, IdRef, Link, PathSegment};
pub use json::{Json, JsonV};
pub use library::{LibraryModule, LibrarySchema, SchemaV, StaticLibrary};
pub use map::{entries_view, insert_sorted, key_index, keys_ascend, IdMap};
pub use scalar::{
    CondOp, DeleteOp, DeleteRef, ForEach, GetOp, GetRef, IfRef, Number, OpDef, OpDefType, OpDefV,
    OpRef, OpRefV, PairsV, PostOp, PostRef, PutOp, PutRef, Scalar, ScalarV, TCRef, TCRefV, Value,
    ValueV, While,
};
pub use subject::{subject_from_str, Subject, SubjectV};
pub use txn::{Claim, HeaderV, NetworkTime, Transaction, TxnHeader, TxnId};

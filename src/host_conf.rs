//! The node's configuration files, as edited through `clightningrpc_conf`.
//!
//! A `CLNConf` holds a map from keys to the list of values given for each
//! key, and the files that it includes. The library edits those in memory;
//! reading and writing the files happens around it.
use clightningrpc_conf::{CLNConf, ParsingError};
use vstd::prelude::*;

verus! {

#[verifier::external_type_specification]
#[verifier::external_body]
pub struct ExCLNConf(CLNConf);

#[verifier::external_type_specification]
#[verifier::external_body]
pub struct ExParsingError(ParsingError);

/// The directives of a configuration file: each key with its values in order.
pub uninterp spec fn conf_fields(c: CLNConf) -> Map<Seq<char>, Seq<Seq<char>>>;

/// The paths of the configuration files that a configuration includes, in order.
pub uninterp spec fn conf_includes(c: CLNConf) -> Seq<Seq<char>>;

/// The path of the file that a configuration is read from and written to.
pub uninterp spec fn conf_path(c: CLNConf) -> Seq<char>;

/// Relies on `CLNConf::new`: an empty configuration bound to `path`.
pub assume_specification[ CLNConf::new ](path: String, create_if_missing: bool) -> (r: CLNConf)
    ensures
        conf_fields(r).is_empty(),
        conf_includes(r).len() == 0,
        conf_path(r) == path@,
;

/// Relies on the derived `Clone` of `CLNConf`: a field-by-field copy.
pub assume_specification[ <CLNConf as Clone>::clone ](c: &CLNConf) -> (r: CLNConf)
    ensures
        conf_fields(r) == conf_fields(*c),
        conf_includes(r) == conf_includes(*c),
        conf_path(r) == conf_path(*c),
;

/// Relies on `CLNConf::add_conf`: appends `val` to the values of `key`,
/// and refuses a value that the key already has.
pub assume_specification[ CLNConf::add_conf ](c: &mut CLNConf, key: &str, val: &str) -> (r: Result<(), ParsingError>)
    ensures
        r is Err <==> (conf_fields(*old(c)).contains_key(key@) && conf_fields(*old(c))[key@].contains(val@)),
        r is Err ==> conf_fields(*final(c)) == conf_fields(*old(c)),
        r is Ok ==> conf_fields(*final(c)) == conf_fields(*old(c)).insert(
            key@,
            if conf_fields(*old(c)).contains_key(key@) {
                conf_fields(*old(c))[key@].push(val@)
            } else {
                seq![val@]
            },
        ),
        conf_includes(*final(c)) == conf_includes(*old(c)),
        conf_path(*final(c)) == conf_path(*old(c)),
;

/// Relies on `CLNConf::rm_conf`: with a value, removes the first occurrence of
/// that value under `key`, and fails where there is none.
pub assume_specification[ CLNConf::rm_conf ](c: &mut CLNConf, key: &str, val: Option<&str>) -> (r: Result<(), ParsingError>)
    ensures
        val is Some ==> (r is Ok <==> (conf_fields(*old(c)).contains_key(key@) && conf_fields(*old(c))[key@].contains(val->Some_0@))),
        val is Some && r is Ok ==> exists|i: int|
            0 <= i < conf_fields(*old(c))[key@].len()
            && conf_fields(*old(c))[key@][i] == val->Some_0@
            && (forall|j: int| 0 <= j < i ==> conf_fields(*old(c))[key@][j] != val->Some_0@)
            && conf_fields(*final(c)) == conf_fields(*old(c)).insert(key@, conf_fields(*old(c))[key@].remove(i)),
        val is None ==> (r is Ok <==> conf_fields(*old(c)).contains_key(key@)),
        val is None && r is Ok ==> conf_fields(*final(c)) == conf_fields(*old(c)).remove(key@),
        r is Err ==> conf_fields(*final(c)) == conf_fields(*old(c)),
        conf_includes(*final(c)) == conf_includes(*old(c)),
        conf_path(*final(c)) == conf_path(*old(c)),
;

/// Relies on `CLNConf::add_subconf`: includes `conf`, and refuses a second
/// inclusion of the same path.
pub assume_specification[ CLNConf::add_subconf ](c: &mut CLNConf, conf: CLNConf) -> (r: Result<(), ParsingError>)
    ensures
        r is Err <==> conf_includes(*old(c)).contains(conf_path(conf)),
        r is Ok ==> conf_includes(*final(c)) == conf_includes(*old(c)).push(conf_path(conf)),
        r is Err ==> conf_includes(*final(c)) == conf_includes(*old(c)),
        conf_fields(*final(c)) == conf_fields(*old(c)),
        conf_path(*final(c)) == conf_path(*old(c)),
;

} // verus!

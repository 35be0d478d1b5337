use vstd::prelude::*;

verus! {

pub const CORE_URL: &'static str = "https://github.com/SCAII/SCAII";

pub const CORE_NAME: &'static str = "SCAII";

pub const RTS_URL: &'static str = "https://github.com/SCAII/Sky-RTS";

pub const RTS_NAME: &'static str = "Sky-RTS";

pub const DEFAULT_BRANCH: &'static str = "master";

pub const CLOSURE_LIB_URL: &'static str =
    "https://github.com/google/closure-library/archive/v20171112.zip";

pub const CLOSURE_LIB_BYTES: usize = 7_032_575;

pub const PROTOBUF_JS_URL: &'static str =
    "https://github.com/google/protobuf/releases/download/v3.5.1/protobuf-js-3.5.1.zip";

pub const PROTOBUF_JS_BYTES: usize = 5_538_299;

} // verus!

//! A verified workflow execution engine: a declarative, ordered tree of
//! file and process operations is applied to every sub-folder of a
//! prepared workspace, under cooperative pause/stop control, producing an
//! ordered audit log plus warning and error collections.

pub mod conditions;
pub mod control;
pub mod engine;
pub mod text;
pub mod fsmodel;
pub mod logfile;
pub mod model;
pub mod pathfrag;
pub mod pyscan;
pub mod regexes;
pub mod reporting;
pub mod shellcmd;
pub mod rename;
pub mod validation;
pub mod zipname;

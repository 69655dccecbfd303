use vstd::prelude::*;

pub mod text;
pub mod grammar;
pub mod step;
pub mod pattern;
pub mod query;
pub mod geometry;
pub mod select;
pub mod cache;
pub mod capture;
pub mod optimizer;
pub mod model;
pub mod xpath;
pub mod validation;
pub mod window;
pub mod matching;
pub mod execute;
pub mod inspect;
pub mod error;
pub mod automation;
pub mod visibility;
pub mod chain;
pub mod navigate;
pub mod tree;
pub mod breadth;
pub mod fallback;

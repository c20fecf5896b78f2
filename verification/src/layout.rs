//! Tables shared by the OpenType layout tables.

pub mod classdef;

//! Packaging of Visual Studio build tools: the text and path logic behind the
//! command line tool that builds portable Visual Studio 2013 and 2022
//! build-tool directories.
pub mod envsort;
pub mod text;
pub mod vs2013;
pub mod vs2022;
pub mod vsenv;
pub mod winpath;

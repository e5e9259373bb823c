//! The PowerShell Remoting Protocol.

pub mod clixml;
pub mod laws;
pub mod outcome_laws;
pub mod protocol;
pub mod reading_laws;
pub mod run;
pub mod run_laws;
pub mod wire_laws;
pub mod xml_laws;

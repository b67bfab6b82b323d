//! Core memory-management library of a small teaching kernel.
//!
//! The heart of the crate is the four-level page-table subsystem under
//! [`memory`]: page-table entries, the table hierarchy with its recursive
//! self-mapping, the temporary-page helper used to initialise a table that is
//! not yet installed, and the protocol that remaps the kernel into a freshly
//! built hierarchy and switches to it.  Physical memory holding the tables is
//! modelled explicitly, so every walk and every update is verified; the thin
//! hardware glue (control registers, boot-information parsing) lives outside
//! the library.

pub mod acpi;
pub mod bump_allocator;
pub mod cpuid;
pub mod io;
pub mod memory;
pub mod pipe;
pub mod vga_buffer;

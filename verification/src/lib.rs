//! Safety tags for `unsafe fn`s, on stable Rust.
//!
//! A function names the conditions that its callers must uphold, as tags; a
//! caller accounts for each of them, or the program does not build.
//!
//! - `#[safety::requires(Tag = "what callers must uphold", ...)]` on an
//!   `unsafe fn` (`expand`) moves the body into an associated function
//!   `__safety_<hash>` on an empty enum of the function's name, where the hash
//!   is that of the sorted set of tag names (`hash`, `names`). The body gets a
//!   marker `fn __safety_delegates_<Tag>() {}` for each tag. Under the
//!   function's own name there is left an `#[inline(always)]` function that
//!   calls an undefined symbol for each tag and then the moved body, so that a
//!   call which accounts for nothing fails to link, and says why.
//!
//! - `#[safety::checked(Tag = "why it holds here", delegate(Tag = "why
//!   forwarding it is sound"))]` on an `unsafe { f(x) }` block, a call or a
//!   `let` statement (`checked`) leads the call on to the entry point for the
//!   tags that it accounts for, which exists only if they are exactly those
//!   that the function requires. The reasons are kept in the expansion as data.
//!   A delegated tag uses its marker, which exists only inside a function that
//!   requires the tag itself.
//!
//! - `#[safety::checks]` on any function (`item`) expands the `checked`
//!   attributes in its body (`walk`); `requires` does so too.
//!
//! Attribute arguments come as tokens (`token`), are read as lexemes
//! (`lexeme`), and parsed (`tags`). The function comes as tokens too, which
//! `syn` parses; its body is taken apart (`syntax`) into a tree of the code in
//! it (`code`). What is wrong is said in diagnostics (`diagnostic`).
//! The laws that tie all of this together are proved in `laws`.
pub mod checked;
pub mod code;
pub mod diagnostic;
pub mod expand;
pub mod hash;
pub mod item;
pub mod laws;
pub mod lexeme;
pub mod names;
pub mod syntax;
pub mod tags;
pub mod token;
pub mod walk;

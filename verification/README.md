# safety

Safety tags for `unsafe fn`s on stable Rust: a function names the conditions
that its callers must uphold, and a call that does not account for each of them
does not build.

```rust
#[safety::requires(
    ValidPtr = "`ptr` is non-null, properly aligned, and valid for reads of `T`",
    Init = "`ptr` points to a properly initialized value of type `T`"
)]
pub unsafe fn read<T>(ptr: *const T) -> T {
    core::ptr::read(ptr)
}

#[safety::checks]
fn main() {
    let x: u32 = 1;
    #[safety::checked(
        ValidPtr = "`&x` is a reference",
        Init = "`x` is a fully initialized local"
    )]
    let v = unsafe { read(&x) };
}
```

Instead of discharging a tag, a function can pass it on to its own callers, by
requiring it too:

```rust
#[safety::requires(ValidPtr = "`base` is valid for reads of 1 byte")]
pub unsafe fn read_first(base: *const u8) -> u8 {
    #[safety::checked(
        Init = "every byte of `u8` is a valid, initialized value",
        delegate(ValidPtr = "ensured by the caller")
    )]
    unsafe {
        read(base)
    }
}
```

## Layout

- `src/` is the library, verified with Verus: the grammar of tags, the hash of a
  set of tags, the names made from it, the walk through a function's body, and
  the expansions. `src/laws/` holds what is proved of them taken together.
- `app/` is the shell round it: it hands the library the compiler's tokens, and
  writes what comes back as tokens. Built as a proc-macro crate, its functions
  are the attributes `checks` and `requires`.
- `tests/` runs the library, with `syn` and `proc-macro2` beneath it.

Trusted, not proved, is what is said of `proc_macro2::TokenStream` (`token`,
`item`), of `syn`'s string literals (`lexeme`), and of the functions that `syn`
parses (`syntax`).

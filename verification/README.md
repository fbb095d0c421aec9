# pyrwa

The verified core of a set of Python extension modules written with PyO3.

- `src/` is the library, verified with Verus:
  - `primes`: the two next-prime searches (`short_next_prime` on `i64`,
    `long_next_prime` on big integers), with the facts about primes that
    their contracts and termination rest on;
  - `double_sqrt`: `(i as f64).sqrt() as i64` computed exactly with
    integers (rounding to the nearest double, ties to even), which bounds the
    candidate test of `short_next_prime`;
  - `bignum`: big integers as a sign and base 2^32 digits; the arithmetic is
    done by `num_bigint` behind a few trusted wrappers;
  - `registry`: the `add_functions!` grammar as a state machine, and the
    registration code it renders;
  - `codegen`: the match arms and field entries spliced in by the derive
    macros; `text`: joining lines;
  - `flights`: the flight status and its names; `items`: `collect`;
  - `adapter`: the cursor that walks the columns of a result row.
- `app/` holds what Verus does not see: the Python modules, database access,
  conversions to Python objects, floating-point conversions and the macro
  front ends.
- `tests/` runs the library on concrete inputs.

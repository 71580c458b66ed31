# cplib

Algorithms and data structures for competitive programming, written in Verus: every function
in `src/` carries a contract that Verus proves.

- `algebra`: monoids and groups as instances (`Min`, `Max`, `Sum`, `Prod` for every primitive
  integer, `Xor`, closures),
  with the fold of a sequence as their meaning.
- `segtree`, `prefix_sum`, `swag`: range products over a monoid or group.
- `dsu`: union-find with path compression; `rerooting_dp`: tree DP from every root.
- `numtheory`, `modint`, `convolution`, `fps`: modular arithmetic, number-theoretic transform
  and formal power series.
- `fermat`, `residue`, `dft`, `poly`: the mathematics these rest on — Fermat's little theorem,
  Lagrange's bound on roots and quadratic non-residues, Proth's primality test, evaluation at
  roots of unity and the inversion formula, and the algebra of truncated products.
- `lis`, `manacher`, `binary_search`, `algorithm`: sequence algorithms and the two-pointer sweep.
- `grid`, `utils::grid`, `prim`, `vector`, `array`, `io`, `utils::macros`: small utilities.

`app/` holds what cannot be verified: the residue type whose modulus lives in thread-local
storage, writers to `std::io::Write`, reading the number of test cases from standard input,
parsing vectors with `FromStr`, and the dot product, which sums through `std::iter::Sum`.

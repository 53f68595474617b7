# meonode_compiler

A build-time compiler for `@meonode/ui` call sites, verified with Verus.

A call such as

```js
Div({ padding: 'theme.spacing.md', width, onClick: handler, children: [A, B] })
```

has its props classified and hashed anew on every render. The compiler does
this once, and writes the outcome into the call:

```js
Div({
  __meo$: 2,
  __meo$c: { padding: 'var(--meonode-theme-spacing-md)', width },
  __meo$d: { onClick: handler },
  __meo$k: 'm1a2b3c',
  __meo$dyn: ['width', 'onClick'],
  children: [A, B],
})
```

A call is rewritten only if that cannot be noticed. A call whose props cannot be
partitioned may still be given a key: `__meo$: 3` and `__meo$k`, behind all its
other props.

## Layout

- `src/` is the library. It works on syntax trees of its own (`ast.rs`), whose
  mathematical counterparts are in `model.rs`.
  - `effect.rs`, `order.rs`, `keys.rs`, `placement.rs`, `validate.rs`: what may
    move, where each prop goes, and which props objects are accepted.
  - `detect.rs`, `bindings.rs`, `visit.rs`, `config.rs`, `catalog.rs`: which
    calls are calls of a factory.
  - `partition.rs`, `theme.rs`, `site_key.rs`, `rewrite.rs`, `plugin.rs`: the
    rewriting itself.
  - `steps.rs`, `laws.rs`, `detect_laws.rs`, `program_laws.rs`,
    `second_pass.rs`: what holds of it. Effects keep their order, no entry is
    lost, special keys stay where the runtime looks for them, and compiling
    twice is compiling once.
- `tests/` runs the library, on programs that a real parser has read.
- `app/` is the plugin: it turns a host's syntax tree into the library's and
  carries the result back.

## Two rules

`detect::detect` judges props objects by a strict rule: every value must be free
of effects, save for a `children` value that is written last.
`detect::detect_with_config`, which the rewriting uses, judges by the order of
evaluation: spreads may lead, keys may be quoted, and values may have effects,
as long as no order-sensitive entry changes places with another.

# securebase

Relationship-based access control with machine-checked contracts.

`src/` is the verified library:

- `tuple` — objects, subjects and tuples (`document:readme#viewer@user:alice`),
  their validation, text form and parsing; printing and parsing are proved to
  be inverse.
- `schema` — the authorization model: types, relations and rewrites
  (`[user] or editor or viewer from parent`); `schema::parser` reads the schema
  language, `schema::validator` reports every relation a rewrite names but its
  type does not define.
- `check` — the permission check as a step function: it asks for one read at a
  time and decides from the reads recorded so far; its verdict is proved to be
  the one the whole store gives.
- `store` — how tuples are laid out in table rows, and back.
- `proto` — the messages of the services and their conversion to the model.
- `api`, `auth` — how the services answer requests and errors.

`app/` holds the HTTP services, the Postgres tuple store, token verification and
the loop that performs the reads a check asks for.

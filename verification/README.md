# mad

Provisioning and stress-testing tool for Active Directory over LDAP.

- `src/` is the verified library: distinguished names and their builder,
  username templates, group identifiers and LDAP filter escaping, subtree
  scoping, attribute lists for new users and groups, the OID name table and
  the connectivity report, and the safety decisions of the removal commands
  (dry run, confirmation, refusing an ambiguous group). Every function
  carries a contract that Verus proves, except three trusted wrappers around
  std (`String::push`, `str::to_lowercase`, `str::to_uppercase`) in
  `src/text.rs`, whose contracts are assumed: the case-mapped results are
  only named, not described.
- `app/` is the command-line program around it: argument parsing, reading the
  configuration file, the LDAP connection, progress bars and random names.
- `tests/` holds the tests of the library.

# GitPersona

A safety-first manager for local Git and GitHub identities: profiles bind
repositories to an explicit author, GitHub CLI account, SSH key, host and
owner policy, and checks confirm them before work leaves the machine.

## Layout

- `src/` is the library, verified with Verus. It holds every decision:
  profile validation and the configuration's rules (`config`, `profiles`,
  `service`), remote parsing (`remote`), the repository binding transaction
  and its exact restoration (`binding`, `git`), identity checks (`check`,
  `ssh`, `github`), directory rules and their fragments (`directory`), hooks
  (`hooks`), cloning (`clone_repo`), command-line arguments (`cli`),
  repository scans (`repository`) and the desktop's folder approvals
  (`desktop`). Calls into `regex`, `url`, `serde_json`, `directories` and
  `std::path` stand behind small trusted wrappers whose contracts name their
  results.
- `app/` is the `gitpersona` command: argument parsing, running `git`, `gh`
  and `ssh`, file I/O, the configuration's TOML, JSON output, and prompts.
  It hands the library plain values and carries out the plans the library
  returns.
- `tests/` exercises the library on concrete values.

# ansible_core

Reads Ansible content the way Ansible does, for editors and checks: YAML with byte spans, the
keywords and where they may stand, free-form arguments, Jinja expressions and templates, and the
files that playbooks, roles and templates refer to. The library is written in Verus; every function
states what it returns, and the proofs are checked.

## Layout

| Module | What it does |
| ------ | ------------ |
| `parse`, `parse_libyaml`, `yaml_input` | YAML trees with byte spans, repeated keys, parse errors, and the way to an editor's UTF-16 columns and back |
| `keywords`, `placement`, `ast` | the keywords of plays, blocks and tasks, and what Ansible refuses where |
| `splitter`, `include_vars` | `key=value` arguments |
| `references`, `resolve`, `reverse`, `mutation` | what a file refers to, where that leads, what leads to a file, and the variables a playbook changes while it runs |
| `jinja` | tokens, expressions, statements, templates and their colours |
| `fs`, `paths`, `order`, `text` | file systems as the caller supplies them, paths and texts |

Six modules hold laws about whole results: `keyword_count` (how many keys are legal where),
`jinja::spans` (the spans of a tree nest), `jinja::cover` (its root spans the whole text),
`jinja::depth` (what nests too deeply is refused), `jinja::breadth` (what does not is not, however
long it is) and `jinja::gaps` (what of a template is in no block).

The library does no I/O. `app/` holds the disk, and the value of a floating-point literal.
`libyaml-safer`, `regex` and `unicode-ident` are called behind small trusted functions, each with
the claim it makes of them.

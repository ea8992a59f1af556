# cfn_guard

Guard checks structured data, such as CloudFormation templates, against policy rules. This crate
holds what its commands compute, each function proved against its contract with Verus. The program
in `app/` offers the `rulegen` and `completions` commands: it reads the command line and the
template it names, and writes what the library computed. The `validate`, `test` and `parse-tree`
commands need the rules parser and evaluator, which this crate does not hold; the library keeps
their decisions and reports, but the program does not offer them.

Layout of `src/`:

- `lib.rs`: the builders for the commands, which refuse settings that contradict each other.
- `commands/rulegen.rs`, `rule_map.rs`, `rule_text.rs`: rule generation from a template, the
  rules file it writes and the omissions it reports.
- `commands/sarif.rs`: the SARIF document of a validation.
- `commands/junit.rs`, `test_report.rs`, `reporting.rs`, `test.rs`, `test_directory.rs`: the
  `test` command's verdicts, reports, exit status and directory layout.
- `commands/test_run.rs`: what the rules files of a `test` run came to, and the exit status and
  reports that makes.
- `commands/junit_xml.rs`: the junit document of a report, as the XML events a writer emits.
- `commands/console.rs`: text the console reports print.
- `commands/name_info.rs`: the single-line summary of a validation, its line for each failing
  clause, and what it says of each failing record of a rule.
- `commands/console_tree.rs`: the records an evaluation leaves, and the console report that draws
  their failing part as a tree.
- `commands/clause_tree.rs`: the per-resource report of a CloudFormation template: each failing
  rule on a resource drawn as nested blocks, with what an error writer adds below each check.
- `commands/validate_junit.rs`: the failing test cases and exit status of a validation's junit
  report.
- `commands/tf.rs`: the property half of a path into a Terraform plan.
- `commands/migrate.rs`: the rules of the first rule language and the resource types they check.
- `commands/wrapper.rs`: where commands write.
- `text.rs`, `sorted.rs`: strings, and sorted vectors of them.

The public proof functions whose names begin with `law_` state properties that span calls or
hold of every input, such as that rule generation is determined by its template.

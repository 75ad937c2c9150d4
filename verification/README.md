# parameter_store_executor

Fetches parameters recursively at PARAMETER_PATHs from AWS SSM Parameter Store,
then executes a program with the parameters supplied as environment variables.

- `src/` is the library, verified with Verus: how parameter names are made
  relative to their path and turned into variable names (`parameter_store`,
  `params`, `text`), how parameters and existing environment variables combine
  into the program's environment (`program_env`, `command_builder`,
  `env_map`), and the checks on the command line (`args`).
- `app/` is the program around it: command-line parsing with clap, reading
  the parameter store with the AWS SDK, and executing the program.
- `tests/` exercises the library.

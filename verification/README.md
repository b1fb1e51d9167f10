# assembly-line

Run one coding-agent job against a git repository and keep the branch it
leaves.

`src/` is the library, written and proved in Verus. It holds everything that is
decided: which settings a repository must declare, how a task graph is checked,
what git is asked for and in which order, how a round ends, what the event log
says happened, where a job's files live, and what each command prints. Each
public function states in its contract what it returns; the functions named
`law_…` state what holds across them.

`app/` is the `assembly` command around it: reading and writing files, running
`git`, `gh` and agents, and the shapes that stand in files.

`tests/` runs the library on concrete values.

| Module | What it holds |
| --- | --- |
| `config` | a repository's settings, and what is wrong with them |
| `depend`, `edges`, `dag` | task graphs: the model, the walk, the checks |
| `event`, `state`, `report`, `review` | the log, and what is read off it |
| `provider`, `exec` | how an agent is run, and how it stopped |
| `git`, `workspace`, `delivery` | what git is asked for, step by step |
| `job` | one round of a job, from checkout to verdict |
| `gc` | which leftovers can go |
| `filepath`, `paths` | where a job's state lives |
| `cli`, `commands` | what each command decides and says |
| `text`, `lines`, `number`, `time` | text, numbers and time underneath |

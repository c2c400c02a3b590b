# latex_generator

A terminal tool that creates a LaTeX report repository from a template: it asks
for the project's metadata in a form, writes the customized template into a new
folder, and sets up a Git repository there.

The logic is a library verified with Verus (`src/`); the terminal program
(`app/`) draws the interface, reads keys, touches the file system and runs Git.

- `src/text.rs`: characters, Unicode whitespace trimming, UTF-8 byte offsets
  and the cursor boundaries of a text field.
- `src/slug.rs`: the folder-name slug of a project name.
- `src/latex.rs`: escaping of metadata for LaTeX, replacement of the template's
  `\newcommand` lines, the generated README, and the laws of the customization.
- `src/order.rs`: string order and a stable sort with its permutation witness.
- `src/paths.rs`, `src/width.rs`: the path, case and display-width operations
  the library calls in std and in `unicode-width`.
- `src/picker.rs`: the directory picker's entries, selection and decisions.
- `src/form.rs`: the settings form, the decisions taken on every key, what each
  line of the screen shows, and the checks made before a project is created.
- `src/setup.rs`: the sequence of Git commands that set up the repository.

The program embeds the template files of the repository that holds it
(`rapport.tex`, `other/titlepage.tex`, `sections/section.tex`,
`.github/workflows/build.yml`, `images/UM.png`, `images/DO.png`), two levels
above `app/`.

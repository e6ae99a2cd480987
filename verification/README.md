# goethite

A static site generator. It reads a source directory of pages written in
Markdown or HTML, each with TOML front matter between `---` lines, and lays them
out with Mustache templates into a destination directory:

    goethite build --source=<src> --dest=<dest>

`src/` is the library, with contracts and proofs of what it does: reading front matter and body out of
a file's text, the markup of a file by its extension, the attributes of a page
(title, author, layout, date, permalink), slugs, where each file is written to,
which entries of the source directory become pages, templates or copies, the
templates by name, the blog posts newest first, and the error messages. Calls
into `chrono`, `regex`, `hoedown` and `std::path` stand behind small trusted
wrappers whose contracts name what those calls return.

`app/` is the command around it: arguments (`docopt`), walking the source
directory (`walkdir`), reading and writing files, decoding TOML (`toml`) and
rendering templates (`mustache`).

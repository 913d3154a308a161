//! Which directory is the root of the workspace.
//!
//! The root is the folder that the user chose, as long as it is there. Else it
//! is the default folder below the home directory, which is created when it
//! is missing and then gets one document to start with.

use vstd::prelude::*;
use crate::error::Error;
use crate::listing::FileContent;
use crate::paths::{join, joined};

verus! {

/// The key under which the root is kept in the configuration.
pub const ROOT_KEY: &'static str = "current_docs_folder";

/// The name of the document that a new default folder gets.
pub const DEMO_FILE_NAME: &'static str = "Getting Started.md";

/// The text of the document that a new default folder gets.
pub const DEMO_CONTENT: &'static str = r#"# Welcome to Allein

The lightweight, AI-powered writing tool.

## Key Features

- **Context-aware autocompletion** — Get smart suggestions as you type
- **Writing improvements** — Enhance your text with a single click
- **Private LLMs** — Works offline, no data leaves your machine
- **No registration needed** — Start writing immediately

## Getting Started

1. Create a new file by clicking the "+" button
2. Start typing in markdown format
3. Watch the live preview update on the right
4. Use the **Improve Writing** button in the bottom right toolbar to enhance your text
5. Your files are saved to `~/allein/docs/` (change the default folder anytime via the app menubar)

## Markdown Basics

**Bold text** — wrap with `**text**`

_Italic text_ — wrap with `*text*`

`Code snippets` — use backticks

### Code Blocks

```js
// This is a code block
function hello() {
  console.log("Hello, world!");
}
```

### Lists

- Item one
- Item two
- Item three

1. First item
2. Second item
3. Third item

## Tips

- Use headings to organize your thoughts
- Add code blocks for technical examples
- Markdown keeps your writing clean and portable

---

Ready to start? Delete this file and create your first document. Happy writing! ✨
"#;

/// What is to be done so that the workspace has its root.
#[derive(Debug)]
pub struct RootPlan {
    /// The root of the workspace.
    pub root: String,
    /// The root is to be created, with the directories above it, unless it
    /// is there.
    pub create_dir: bool,
    /// The root is to be written to the configuration under `ROOT_KEY`.
    pub persist: bool,
    /// The root is to get the demonstration document.
    pub seed_demo: bool,
}

/// The default root for the user whose home directory is `home`.
pub open spec fn default_root(home: Seq<char>) -> Seq<char> {
    joined(joined(home, "allein"@), "docs"@)
}

/// The default root for the user whose home directory is `home`.
pub fn default_docs_dir(home: &str) -> (r: String)
    ensures
        r@ == default_root(home@),
{
    let app = join(home, "allein");
    join(app.as_str(), "docs")
}

/// Decides on the root of the workspace.
///
/// `custom` is the root that the configuration holds, and `custom_is_dir`
/// says whether a directory is there. `home` is the home directory, where it
/// is known, and `default_exists` says whether anything is at the default
/// root.
///
/// A custom root that is a directory is taken as it is, and nothing is to be
/// done. Else the default root is taken: it is to be created and written to
/// the configuration, and it gets the demonstration document if and only if
/// it was not there before. Without a home directory there is no default.
pub fn get_docs_dir(
    custom: Option<String>,
    custom_is_dir: bool,
    home: Option<String>,
    default_exists: bool,
) -> (r: Result<RootPlan, Error>)
    ensures
        match r {
            Ok(plan) => if custom is Some && custom_is_dir {
                &&& plan.root@ == custom->0@
                &&& !plan.create_dir
                &&& !plan.persist
                &&& !plan.seed_demo
            } else {
                &&& home is Some
                &&& plan.root@ == default_root(home->0@)
                &&& plan.create_dir
                &&& plan.persist
                &&& plan.seed_demo == !default_exists
            },
            Err(e) => !(custom is Some && custom_is_dir) && home is None && e
                == Error::DirectoryUnavailable,
        },
{
    if custom_is_dir {
        match custom {
            Some(root) => {
                return Ok(RootPlan { root, create_dir: false, persist: false, seed_demo: false });
            },
            None => {},
        }
    }
    match home {
        Some(home) => Ok(
            RootPlan {
                root: default_docs_dir(home.as_str()),
                create_dir: true,
                persist: true,
                seed_demo: !default_exists,
            },
        ),
        None => Err(Error::DirectoryUnavailable),
    }
}

/// Decides on the root of the workspace after the custom root was removed
/// from the configuration: the default root is taken.
pub fn reset_docs_folder(home: Option<String>, default_exists: bool) -> (r: Result<RootPlan, Error>)
    ensures
        match r {
            Ok(plan) => {
                &&& home is Some
                &&& plan.root@ == default_root(home->0@)
                &&& plan.create_dir
                &&& plan.persist
                &&& plan.seed_demo == !default_exists
            },
            Err(e) => home is None && e == Error::DirectoryUnavailable,
        },
{
    get_docs_dir(None, false, home, default_exists)
}

/// The demonstration document for the root `docs_dir`.
pub fn create_demo_file(docs_dir: &str) -> (r: FileContent)
    ensures
        r.path@ == joined(docs_dir@, DEMO_FILE_NAME@),
        r.content@ == DEMO_CONTENT@,
{
    FileContent { content: DEMO_CONTENT.to_owned(), path: join(docs_dir, DEMO_FILE_NAME) }
}

/// Whether a folder can become the root of the workspace: it has to exist,
/// to be a directory, and to take a file. The first of these that fails is
/// reported.
pub fn set_docs_folder(present: bool, is_dir: bool, writable: bool) -> (r: Result<(), Error>)
    ensures
        r == if !present || !is_dir {
            Err::<(), Error>(Error::NotFound)
        } else if !writable {
            Err::<(), Error>(Error::IoFailure)
        } else {
            Ok::<(), Error>(())
        },
{
    if !present || !is_dir {
        Err(Error::NotFound)
    } else if !writable {
        Err(Error::IoFailure)
    } else {
        Ok(())
    }
}

} // verus!

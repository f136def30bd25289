# exif_file_tool

A library for a tool that shows a folder of photos and movies, reads the dates and
the EXIF data in them, changes these, and renames and copies the files. Its
functions carry contracts that Verus proves.

- `src/` is the library. It works on bytes, texts and numbers and touches no file.
  - `datetime`, `calendar`, `date_input`, `date_shift`, `filename_date`, `creator`:
    dates, how they are typed, shifted, and found in names.
  - `binary`, `tiff`, `jpeg`, `exif*`: EXIF data in JPEG images.
  - `png`, `mp4`, `mpeg_ts`, `media`: the other kinds of media files.
  - `names`, `paths`, `file_path`, `rename_*`, `name_batch`, `file_actions`,
    `media_names`: names and paths, and renaming and copying without loss.
  - `entries`, `order`, `arrange`, `file_list`, `file_rows`, `file_selection`,
    `folder`, `path_values`, `scan_queue`, `browser`: the file list.
  - `details_form`, `details_selection`, `form_keys`, `save_plan`, `tag_saving`,
    `staging`, `staging_files`, `notices`, `requests`, `gestures`, `preview`: the form
    with the details of the selected files, how it is saved, and the preview.
  - The files whose names end in `_laws` state what holds of several functions
    together.
- `tests/` runs the library.
- `app/` is the program around it: files, the time zone of the machine, decimal
  numbers, the window and the command line.

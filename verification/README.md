# sfdl

Loads CSV files and workbooks into Salesforce, as a YAML template says.

A template names the kind of object and the operation (`insert` or `update`),
and says of each field where it comes from: a column, a formula on the row, or
a record that is looked up. A run reads the data, looks up what the rows refer
to in batches, builds one object for each row, asks, and loads them with the
Salesforce command line. Rows that Salesforce rejects are saved beside the data
file, `contacts.csv` in `contacts_ERRORS.csv`. A dry run only shows or saves
the objects.

- `src/` is the library, verified with Verus: formulas, reading rows, lookups,
  building objects, writing CSV, and what is asked of the Salesforce command
  line and what its answers mean. The modules named `..._laws` state what holds
  of these in general.
- `tests/` runs the library on examples.
- `app/` is the program around it: arguments, files, workbooks, processes, and
  what the user sees.

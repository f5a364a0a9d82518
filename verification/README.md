# vs_buildtools

Builds portable Visual Studio build-tool packages: a Visual Studio 2013
package copied from an existing installation, and a Visual Studio 2022
package installed with the build-tools installer and trimmed.

- `src/` is the verified library: the text primitives (`text`), path
  components of the host's path syntax (`winpath`), the stable sort of environment listings (`envsort`),
  and the logic of each package (`vs2013`, `vs2022`, `vsenv`): relocatable
  environment scripts, where copied directories go, the installer command
  line, which SDK directories are kept, and the environment files.
- `app/` is the command line program around it: downloading, running the
  installer and `cmd`, reading shortcuts, walking, copying and removing
  directories, and compressing the package.
